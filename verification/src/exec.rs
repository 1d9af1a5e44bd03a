//! The decisions of a benchmark run.
//!
//! A run alternates outside work (a request, a child process) with decisions: may
//! it start ([`preflight`]), what comes next ([`live_step`], [`bench_step`]), what
//! a reply means ([`reply_timings`]), what a row of llama-bench adds
//! ([`absorb_row`]). The work is the caller's; the decisions are here.
use vstd::prelude::*;
use vstd::string::*;
use crate::bench::{
    bench_build_of, bench_row_of, build_of, decimal_json, decimal_number, error_message,
    flash_attn_of, flash_attn_word, pairs, parse_timings, rate_or_zero, test_label, timings_are,
    Measured, Mode, Timings,
};
use crate::json::{
    int_json, int_or_zero, json_compact, json_read, json_value, member, numeral_of, read_json,
    shape_of, Json, JsonView,
};
use crate::presets::Preset;
use crate::report::RunMeta;
use crate::results::{flash_attn_mismatch, mismatch_warning, noted, Seen};
use crate::runs::{bench_row_object, wrap_bench_row};
use crate::text::{
    dec, dec_int, join, join_strs, opt, push_dec, push_int, str_eq, strs, trim, trim_str,
};

verus! {

// ── Before the run ───────────────────────────────────────────────────────

/// Why a mode cannot run with the server as it is. The live engine needs it up;
/// the synthetic one needs it down.
pub open spec fn preflight_problem(mode: Mode, running: bool) -> Option<Seq<char>> {
    if mode == Mode::Live && !running {
        Some(
            "llama-server is not running. The live mode measures the running server, so start it first (the Start button on the left)."@,
        )
    } else if mode == Mode::Synthetic && running {
        Some(
            "llama-server is running and holds the model in VRAM. Stop it first: benching alongside it does not fail, it spills into shared memory and reads as a backend regression."@,
        )
    } else {
        None
    }
}

/// Why a mode cannot run with the server as it is.
pub fn preflight(mode: Mode, running: bool) -> (r: Option<String>)
    ensures
        opt(r) == preflight_problem(mode, running),
{
    match mode {
        Mode::Live => {
            if running {
                None
            } else {
                Some(
                    "llama-server is not running. The live mode measures the running server, so start it first (the Start button on the left).".to_owned(),
                )
            }
        },
        Mode::Synthetic => {
            if running {
                Some(
                    "llama-server is running and holds the model in VRAM. Stop it first: benching alongside it does not fail, it spills into shared memory and reads as a backend regression.".to_owned(),
                )
            } else {
                None
            }
        },
    }
}

/// The first preset with the id, or -1.
pub open spec fn preset_at(all: Seq<Preset>, id: Seq<char>) -> int
    decreases all.len(),
{
    if all.len() == 0 {
        -1
    } else if preset_at(all.drop_last(), id) >= 0 {
        preset_at(all.drop_last(), id)
    } else if all.last().id@ == id {
        all.len() - 1
    } else {
        -1
    }
}

proof fn lemma_preset_at_prefix(all: Seq<Preset>, id: Seq<char>, n: int)
    requires
        0 <= n <= all.len(),
        preset_at(all.take(n), id) >= 0,
    ensures
        preset_at(all, id) == preset_at(all.take(n), id),
    decreases all.len() - n,
{
    if n == all.len() {
        assert(all.take(n) =~= all);
    } else {
        assert(all.take(n + 1).drop_last() =~= all.take(n));
        lemma_preset_at_prefix(all, id, n + 1);
    }
}

/// The place of the preset with the id.
pub fn find_preset(all: &[Preset], id: &str) -> (r: Option<usize>)
    ensures
        match r {
            Some(i) => i == preset_at(all@, id@) && i < all@.len() && all@[i as int].id@ == id@,
            None => preset_at(all@, id@) < 0,
        },
{
    let mut i: usize = 0;
    while i < all.len()
        invariant
            i <= all.len(),
            preset_at(all@.take(i as int), id@) < 0,
        decreases all.len() - i,
    {
        proof {
            assert(all@.take(i + 1).drop_last() =~= all@.take(i as int));
            assert(all@.take(i + 1).last() == all@[i as int]);
        }
        if str_eq(all[i].id.as_str(), id) {
            proof {
                lemma_preset_at_prefix(all@, id@, i + 1);
            }
            return Some(i);
        }
        i += 1;
    }
    assert(all@.take(all@.len() as int) =~= all@);
    None
}

/// The ids of presets.
pub open spec fn ids_of(all: Seq<Preset>) -> Seq<Seq<char>> {
    all.map_values(|p: Preset| p.id@)
}

/// The place of the one preset that is asked for, or an error that lists the ids
/// there are.
pub fn load_one(all: &[Preset], id: &str) -> (r: Result<usize, String>)
    ensures
        match r {
            Ok(i) => i == preset_at(all@, id@) && i < all@.len() && all@[i as int].id@ == id@,
            Err(e) => preset_at(all@, id@) < 0 && e@ == "no preset `"@ + id@
                + "` in presets.ini. Known presets: "@ + join(ids_of(all@), ", "@),
        },
{
    match find_preset(all, id) {
        Some(i) => Ok(i),
        None => {
            let mut known: Vec<String> = Vec::new();
            let mut k: usize = 0;
            while k < all.len()
                invariant
                    k <= all.len(),
                    known@.len() == k,
                    forall|j: int| 0 <= j < k ==> (#[trigger] known@[j])@ == all@[j].id@,
                decreases all.len() - k,
            {
                known.push(all[k].id.clone());
                k += 1;
            }
            assert(strs(known@) =~= ids_of(all@));
            let mut e: String = "no preset `".to_owned();
            e.append(id);
            e.append("` in presets.ini. Known presets: ");
            let list = join_strs(&known, ", ");
            e.append(list.as_str());
            Err(e)
        },
    }
}

/// The places of the presets that a plan names, in its order; refused where one is
/// gone.
pub fn choose_presets(all: &[Preset], ids: &Vec<String>) -> (r: Result<Vec<usize>, String>)
    ensures
        match r {
            Ok(v) => v@.len() == ids@.len() && forall|i: int|
                0 <= i < ids@.len() ==> #[trigger] v@[i] == preset_at(all@, ids@[i]@) && v@[i]
                    < all@.len(),
            Err(e) => (exists|i: int|
                0 <= i < ids@.len() && preset_at(all@, #[trigger] ids@[i]@) < 0) && e@
                == "A selected preset is no longer in presets.ini. Refresh (F5) and re-select."@,
        },
{
    let mut out: Vec<usize> = Vec::new();
    let mut i: usize = 0;
    while i < ids.len()
        invariant
            i <= ids.len(),
            out@.len() == i,
            forall|k: int|
                0 <= k < i ==> #[trigger] out@[k] == preset_at(all@, ids@[k]@) && out@[k]
                    < all@.len(),
        decreases ids.len() - i,
    {
        match find_preset(all, ids[i].as_str()) {
            Some(at) => out.push(at),
            None => {
                assert(preset_at(all@, ids@[i as int]@) < 0);
                return Err(
                    "A selected preset is no longer in presets.ini. Refresh (F5) and re-select.".to_owned(),
                );
            },
        }
        i += 1;
    }
    Ok(out)
}

// ── The environment ──────────────────────────────────────────────────────

/// A device with its name, or the remark that nothing detected it.
pub open spec fn device_text(d: (Seq<char>, Seq<char>)) -> Seq<char> {
    if d.1.len() == 0 {
        d.0 + " (not detected)"@
    } else {
        d.0 + " = "@ + d.1
    }
}

/// The rows about the devices of presets; a preset without devices has none.
pub open spec fn device_row_list(resolved: Seq<(String, Vec<(String, String)>)>) -> Seq<
    (Seq<char>, Seq<char>),
>
    decreases resolved.len(),
{
    if resolved.len() == 0 {
        Seq::empty()
    } else {
        let before = device_row_list(resolved.drop_last());
        let r = resolved.last();
        if r.1@.len() == 0 {
            before
        } else {
            before.push(
                (
                    "devices ("@ + r.0@ + ")"@,
                    join(
                        pairs(r.1@).map_values(|d: (Seq<char>, Seq<char>)| device_text(d)),
                        ", "@,
                    ),
                ),
            )
        }
    }
}

fn device_list(ids: &Vec<(String, String)>) -> (r: String)
    ensures
        r@ == join(pairs(ids@).map_values(|d: (Seq<char>, Seq<char>)| device_text(d)), ", "@),
{
    let mut parts: Vec<String> = Vec::new();
    let mut i: usize = 0;
    while i < ids.len()
        invariant
            i <= ids.len(),
            parts@.len() == i,
            forall|k: int|
                0 <= k < i ==> (#[trigger] parts@[k])@ == device_text((ids@[k].0@, ids@[k].1@)),
        decreases ids.len() - i,
    {
        let mut s: String = ids[i].0.clone();
        if ids[i].1.as_str().is_empty() {
            s.append(" (not detected)");
        } else {
            s.append(" = ");
            s.append(ids[i].1.as_str());
        }
        parts.push(s);
        i += 1;
    }
    assert(strs(parts@) =~= pairs(ids@).map_values(|d: (Seq<char>, Seq<char>)| device_text(d)));
    join_strs(&parts, ", ")
}

/// The rows about the devices of presets, as the probe names them now.
pub fn device_rows(resolved: &Vec<(String, Vec<(String, String)>)>) -> (r: Vec<(String, String)>)
    ensures
        pairs(r@) == device_row_list(resolved@),
{
    let mut out: Vec<(String, String)> = Vec::new();
    let mut i: usize = 0;
    assert(resolved@.take(0) =~= Seq::<(String, Vec<(String, String)>)>::empty());
    assert(pairs(out@) =~= device_row_list(resolved@.take(0)));
    while i < resolved.len()
        invariant
            i <= resolved.len(),
            pairs(out@) == device_row_list(resolved@.take(i as int)),
        decreases resolved.len() - i,
    {
        let ghost before = out@;
        proof {
            assert(resolved@.take(i + 1).drop_last() =~= resolved@.take(i as int));
            assert(resolved@.take(i + 1).last() == resolved@[i as int]);
        }
        if resolved[i].1.len() > 0 {
            let mut label: String = "devices (".to_owned();
            label.append(resolved[i].0.as_str());
            label.append(")");
            let value = device_list(&resolved[i].1);
            let ghost row = (label@, value@);
            out.push((label, value));
            assert(pairs(out@) =~= pairs(before).push(row));
        }
        i += 1;
    }
    assert(resolved@.take(resolved@.len() as int) =~= resolved@);
    out
}

/// The rows about the flash-attention settings that the presets resolved to.
pub open spec fn flash_rows(seen: Seq<(Seq<char>, Seq<char>)>) -> Seq<(Seq<char>, Seq<char>)> {
    seen.map_values(|p: (Seq<char>, Seq<char>)| ("flash-attn ("@ + p.0 + ")"@, p.1))
}

/// The warnings, with the one about different settings where there is one.
pub open spec fn with_warning(warnings: Seq<Seq<char>>, w: Option<Seq<char>>) -> Seq<Seq<char>> {
    match w {
        Some(t) => warnings.push(t),
        None => warnings,
    }
}

/// Adds to what a report says what the rows themselves told.
pub fn finish_meta(meta: &mut RunMeta, seen: &Seen)
    ensures
        strs(final(meta).warnings@) == with_warning(
            strs(old(meta).warnings@),
            mismatch_warning(seen@),
        ),
        pairs(final(meta).env@) == pairs(old(meta).env@) + flash_rows(seen@),
        *final(meta) == (RunMeta {
            warnings: final(meta).warnings,
            env: final(meta).env,
            ..*old(meta)
        }),
{
    let ghost start = *meta;
    if let Some(w) = flash_attn_mismatch(seen) {
        let ghost text = w@;
        meta.warnings.push(w);
        assert(strs(meta.warnings@) =~= strs(start.warnings@).push(text));
    }
    let v = seen.pairs();
    let ghost rows = flash_rows(seen@);
    let ghost warned = meta.warnings;
    let mut i: usize = 0;
    assert(pairs(start.env@) + rows.take(0) =~= pairs(start.env@));
    while i < v.len()
        invariant
            i <= v.len(),
            pairs(v@) == seen@,
            rows == flash_rows(seen@),
            pairs(meta.env@) == pairs(start.env@) + rows.take(i as int),
            *meta == (RunMeta { warnings: warned, env: meta.env, ..start }),
        decreases v.len() - i,
    {
        let ghost before = meta.env@;
        let mut label: String = "flash-attn (".to_owned();
        label.append(v[i].0.as_str());
        label.append(")");
        let ghost row = (label@, v@[i as int].1@);
        meta.env.push((label, v[i].1.clone()));
        proof {
            assert(pairs(v@)[i as int] == (v@[i as int].0@, v@[i as int].1@));
            assert(row == rows[i as int]);
            assert(pairs(meta.env@) =~= pairs(before).push(row));
            assert(rows.take(i + 1) =~= rows.take(i as int).push(rows[i as int]));
            assert(pairs(meta.env@) =~= pairs(start.env@) + rows.take(i + 1));
        }
        i += 1;
    }
    assert(rows.take(v@.len() as int) =~= rows);
}

// ── What comes next ──────────────────────────────────────────────────────

/// A place in a run: a preset, and a step of it.
#[derive(Clone, Copy, PartialEq, Eq, Structural, Debug)]
pub struct Walk {
    pub preset: usize,
    pub step: usize,
}

impl Walk {
    /// The place behind this one, where each preset has `steps` of them.
    pub open spec fn following(self, steps: usize) -> Walk {
        if self.step + 1 < steps {
            Walk { preset: self.preset, step: (self.step + 1) as usize }
        } else {
            Walk { preset: (self.preset + 1) as usize, step: 0 }
        }
    }

    /// Goes to the next place.
    pub fn advance(&mut self, steps: usize)
        requires
            old(self).preset < usize::MAX,
        ensures
            *final(self) == old(self).following(steps),
    {
        if self.step < usize::MAX && self.step + 1 < steps {
            self.step = self.step + 1;
        } else {
            self.preset = self.preset + 1;
            self.step = 0;
        }
    }
}

/// The place that a run has reached after so many steps.
pub open spec fn walked(steps: usize, n: nat) -> Walk
    decreases n,
{
    if n == 0 {
        Walk { preset: 0, step: 0 }
    } else {
        walked(steps, (n - 1) as nat).following(steps)
    }
}

/// What a run does next.
#[derive(Clone, Copy, PartialEq, Eq, Structural, Debug)]
pub enum Step {
    /// Load the model of a preset by a throwaway request.
    Warm(usize),
    /// Measure a preset: which repetition.
    Ask(usize, i32),
    /// Run llama-bench on a preset: which half of the workload.
    Bench(usize, usize),
    /// Stop: somebody asked for it.
    Cancel,
    /// Stop: everything is measured.
    Finish,
}

/// The next step of a live run of so many presets. Every preset is warmed before
/// its repetitions, which run together. A cancelled run stops before its next
/// request.
pub open spec fn live_step_at(presets: usize, at: Walk, cancelled: bool) -> Step {
    if at.preset >= presets {
        Step::Finish
    } else if cancelled {
        Step::Cancel
    } else if at.step == 0 {
        Step::Warm(at.preset)
    } else {
        Step::Ask(at.preset, at.step as i32)
    }
}

/// The next step of a live run.
pub fn live_step(presets: usize, at: Walk, cancelled: bool) -> (r: Step)
    requires
        at.step <= i32::MAX,
    ensures
        r == live_step_at(presets, at, cancelled),
{
    if at.preset >= presets {
        Step::Finish
    } else if cancelled {
        Step::Cancel
    } else if at.step == 0 {
        Step::Warm(at.preset)
    } else {
        Step::Ask(at.preset, at.step as i32)
    }
}

/// The next step of a synthetic run.
pub fn bench_step(presets: usize, at: Walk, cancelled: bool) -> (r: Step)
    ensures
        r == if at.preset >= presets {
            Step::Finish
        } else if cancelled {
            Step::Cancel
        } else {
            Step::Bench(at.preset, at.step)
        },
{
    if at.preset >= presets {
        Step::Finish
    } else if cancelled {
        Step::Cancel
    } else {
        Step::Bench(at.preset, at.step)
    }
}

/// A run takes the presets one after the other, all steps of one before the next:
/// after `p * steps + s` steps it is at step `s` of preset `p`.
pub proof fn law_presets_are_grouped(steps: usize, p: usize, s: usize)
    requires
        s < steps,
    ensures
        walked(steps, (p * steps + s) as nat) == (Walk { preset: p, step: s }),
    decreases p, s,
{
    assert(p * steps >= 0) by (nonlinear_arith);
    if s > 0 {
        law_presets_are_grouped(steps, p, (s - 1) as usize);
    } else if p > 0 {
        law_presets_are_grouped(steps, (p - 1) as usize, (steps - 1) as usize);
        assert((p - 1) * steps + steps == p * steps) by (nonlinear_arith);
    } else {
        assert(p * steps == 0) by (nonlinear_arith)
            requires
                p == 0,
        ;
    }
}

/// The place of preset `p` and repetition `rep` is a request for that repetition,
/// and the place before its first is the throwaway request: nothing is measured
/// on a model that was not loaded before.
pub proof fn law_every_repetition_follows_a_warm_up(presets: usize, reps: i32, p: usize, rep: i32)
    requires
        p < presets,
        1 <= rep <= reps,
    ensures
        live_step_at(
            presets,
            walked((reps + 1) as usize, (p * (reps + 1) + rep) as nat),
            false,
        ) == Step::Ask(p, rep),
        live_step_at(presets, walked((reps + 1) as usize, (p * (reps + 1)) as nat), false)
            == Step::Warm(p),
{
    law_presets_are_grouped((reps + 1) as usize, p, rep as usize);
    law_presets_are_grouped((reps + 1) as usize, p, 0);
}

// ── What a run says ──────────────────────────────────────────────────────

/// The line about the warm-up of a preset.
pub fn warm_text(preset: &str) -> (r: String)
    ensures
        r@ == preset@ + ": loading the model (warm-up request)"@,
{
    let mut out: String = preset.to_owned();
    out.append(": loading the model (warm-up request)");
    out
}

/// The line about a repetition.
pub fn repetition_text(preset: &str, rep: i32, reps: i32) -> (r: String)
    ensures
        r@ == preset@ + ": repetition "@ + dec_int(rep as int) + "/"@ + dec_int(reps as int),
{
    let mut out: String = preset.to_owned();
    out.append(": repetition ");
    push_int(&mut out, rep as i64);
    out.append("/");
    push_int(&mut out, reps as i64);
    out
}

/// The line about a half of the workload.
pub fn bench_text(preset: &str, sweep: &str) -> (r: String)
    ensures
        r@ == preset@ + ": llama-bench, "@ + sweep@ + " sweep"@,
{
    let mut out: String = preset.to_owned();
    out.append(": llama-bench, ");
    out.append(sweep);
    out.append(" sweep");
    out
}

// ── A reply of the server ────────────────────────────────────────────────

/// Why a body is no measurement, or none where it is one.
pub open spec fn body_problem(v: Result<JsonView, Seq<char>>) -> Option<Seq<char>> {
    match v {
        Err(fault) => Some("unreadable response: "@ + fault),
        Ok(j) => match error_message(j) {
            Some(m) => Some(m),
            None => if member(j, "timings"@) is None {
                Some("no timings in the response (is this llama-server?)"@)
            } else {
                None
            },
        },
    }
}

/// Why a reply is no measurement, or none where it is one.
pub open spec fn reply_problem(preset: Seq<char>, status: u16, body: Option<Seq<char>>) -> Option<Seq<char>> {
    if status != 200 {
        Some(
            preset + ": llama-server answered HTTP "@ + dec(status as nat) + ". See the run log."@,
        )
    } else {
        match body {
            Some(e) => Some(preset + ": "@ + e),
            None => None,
        }
    }
}

/// What a reply says, once its body was read.
pub fn judge_reply(preset: &str, status: u16, read: Result<Timings, String>) -> (r: Result<Timings, String>)
    ensures
        match r {
            Ok(t) => status == 200 && read == Ok::<Timings, String>(t),
            Err(e) => reply_problem(
                preset@,
                status,
                match read {
                    Ok(_) => None,
                    Err(f) => Some(f@),
                },
            ) == Some(e@),
        },
{
    if status != 200 {
        let mut e: String = preset.to_owned();
        e.append(": llama-server answered HTTP ");
        push_dec(&mut e, status as u64);
        e.append(". See the run log.");
        return Err(e);
    }
    match read {
        Ok(t) => Ok(t),
        Err(f) => {
            let mut e: String = preset.to_owned();
            e.append(": ");
            e.append(f.as_str());
            Err(e)
        },
    }
}

/// What a reply says: the timings, or why there are none.
pub fn reply_timings(preset: &str, status: u16, body: &str) -> (r: Result<Timings, String>)
    ensures
        match r {
            Ok(t) => status == 200 && body_problem(json_read(body@)) is None && timings_are(
                t,
                member(json_read(body@)->Ok_0, "timings"@)->0,
            ),
            Err(e) => reply_problem(preset@, status, body_problem(json_read(body@))) == Some(e@),
        },
{
    let read = parse_timings(body);
    judge_reply(preset, status, read)
}

/// What the repetitions of a preset added up to.
#[derive(Clone, Copy, PartialEq, Eq, Structural, Debug)]
pub struct Tally {
    /// The most prompt tokens that a repetition took from the cache.
    pub cache_seen: i64,
    pub draft_n: i64,
    pub draft_ok: i64,
}

impl Tally {
    pub fn new() -> (r: Tally)
        ensures
            r == (Tally { cache_seen: 0, draft_n: 0, draft_ok: 0 }),
    {
        Tally { cache_seen: 0, draft_n: 0, draft_ok: 0 }
    }

    /// Adds a repetition.
    pub fn absorb(&mut self, t: &Timings)
        requires
            i64::MIN <= old(self).draft_n + t.draft_n <= i64::MAX,
            i64::MIN <= old(self).draft_ok + t.draft_accepted <= i64::MAX,
        ensures
            final(self).cache_seen == if t.cache_n > old(self).cache_seen {
                t.cache_n
            } else {
                old(self).cache_seen
            },
            final(self).draft_n == old(self).draft_n + t.draft_n,
            final(self).draft_ok == old(self).draft_ok + t.draft_accepted,
    {
        if t.cache_n > self.cache_seen {
            self.cache_seen = t.cache_n;
        }
        self.draft_n = self.draft_n + t.draft_n;
        self.draft_ok = self.draft_ok + t.draft_accepted;
    }
}

/// What is kept of a repetition beside its rates. `pct` is the share of drafted
/// tokens that were accepted, as a numeral.
pub open spec fn detail_object(t: Timings, pct: Option<Seq<char>>) -> JsonView {
    JsonView::Object(
        seq![
            ("prompt_n"@, int_json(t.prompt_n)),
            ("predicted_n"@, int_json(t.predicted_n)),
            ("cache_n"@, int_json(t.cache_n)),
            ("draft_n"@, int_json(t.draft_n)),
            ("draft_n_accepted"@, int_json(t.draft_accepted)),
            (
                "draft_acceptance_pct"@,
                match pct {
                    Some(s) => decimal_json(s),
                    None => JsonView::Null,
                },
            ),
        ],
    )
}

/// What is kept of a repetition beside its rates.
pub fn sample_detail(t: &Timings, pct: &Option<String>) -> (r: Json)
    ensures
        r.shape() == detail_object(*t, opt(*pct)),
{
    let mut m: Vec<(String, Json)> = Vec::new();
    m.push(("prompt_n".to_owned(), Json::number(t.prompt_n)));
    m.push(("predicted_n".to_owned(), Json::number(t.predicted_n)));
    m.push(("cache_n".to_owned(), Json::number(t.cache_n)));
    m.push(("draft_n".to_owned(), Json::number(t.draft_n)));
    m.push(("draft_n_accepted".to_owned(), Json::number(t.draft_accepted)));
    let share = match pct {
        Some(s) => decimal_number(s.as_str()),
        None => Json::Null,
    };
    assert(Json::Null.shape() == JsonView::Null);
    m.push(("draft_acceptance_pct".to_owned(), share));
    let j = Json::Object(m);
    assert(j.shape()->Object_0 =~= detail_object(*t, opt(*pct))->Object_0);
    j
}

// ── A row of llama-bench ─────────────────────────────────────────────────

/// What llama-bench said beside its rates.
#[derive(Debug)]
pub struct BenchLog {
    pub build: Option<i64>,
    pub flash_attn: Seen,
}

/// A row: the point, and the row itself as a line.
#[derive(Debug)]
pub struct BenchRow {
    pub point: Measured,
    pub raw: String,
}

/// Whether a value is a row of llama-bench: it has a mean.
pub open spec fn is_row(v: Option<JsonView>) -> bool {
    v is Some && numeral_of(member(v->0, "avg_ts"@)) is Some
}

/// Whether a point is the one that a row gives.
pub open spec fn point_is(p: Measured, v: JsonView, preset: Seq<char>, reps: i32) -> bool {
    &&& numeral_of(member(v, "avg_ts"@)) == Some(p.mean@)
    &&& p.preset@ == preset
    &&& p.test@ == test_label(
        int_or_zero(member(v, "n_prompt"@)),
        int_or_zero(member(v, "n_gen"@)),
        int_or_zero(member(v, "n_depth"@)),
    )
    &&& p.sd@ == rate_or_zero(member(v, "stddev_ts"@))
    &&& p.n == reps
    &&& p.note@.len() == 0
}

/// The build: the first that a line names.
pub open spec fn build_after(before: Option<i64>, v: Option<JsonView>) -> Option<i64> {
    match before {
        Some(b) => Some(b),
        None => build_of(v),
    }
}

/// The settings: those of a row that names one.
pub open spec fn settings_after(
    before: Seq<(Seq<char>, Seq<char>)>,
    v: Option<JsonView>,
    preset: Seq<char>,
) -> Seq<(Seq<char>, Seq<char>)> {
    match flash_attn_word(v) {
        Some(w) => if is_row(v) {
            noted(before, preset, w)
        } else {
            before
        },
        None => before,
    }
}

/// Takes in a line of llama-bench that was read as JSON, or was none: a row gives
/// a point and its own text.
pub fn absorb_row(log: &mut BenchLog, value: Option<Json>, preset: &str, reps: i32) -> (r: Option<BenchRow>)
    ensures
        final(log).build == build_after(old(log).build, shape_of(value)),
        final(log).flash_attn@ == settings_after(old(log).flash_attn@, shape_of(value), preset@),
        match r {
            Some(row) => {
                &&& is_row(shape_of(value))
                &&& point_is(row.point, shape_of(value)->0, preset@, reps)
                &&& row.raw@ == json_compact(bench_row_object(preset@, shape_of(value)))
            },
            None => !is_row(shape_of(value)),
        },
{
    let ghost view = shape_of(value);
    match value {
        Some(v) => {
            if log.build.is_none() {
                log.build = bench_build_of(&v);
            }
            match bench_row_of(&v, preset, reps) {
                Some(point) => {
                    if let Some(w) = flash_attn_of(&v) {
                        log.flash_attn.insert(preset.to_owned(), w);
                    }
                    let raw = wrap_bench_row(preset, Some(v));
                    Some(BenchRow { point, raw })
                },
                None => None,
            }
        },
        None => None,
    }
}

/// Takes in a line of llama-bench.
pub fn absorb_line(log: &mut BenchLog, line: &str, preset: &str, reps: i32) -> (r: Option<BenchRow>)
    ensures
        final(log).build == build_after(old(log).build, json_value(trim(line@))),
        final(log).flash_attn@ == settings_after(
            old(log).flash_attn@,
            json_value(trim(line@)),
            preset@,
        ),
        match r {
            Some(row) => {
                &&& is_row(json_value(trim(line@)))
                &&& point_is(row.point, json_value(trim(line@))->0, preset@, reps)
                &&& row.raw@ == json_compact(bench_row_object(preset@, json_value(trim(line@))))
            },
            None => !is_row(json_value(trim(line@))),
        },
{
    let t = trim_str(line);
    let v = read_json(t.as_str());
    absorb_row(log, v, preset, reps)
}

// ── How a run ends ───────────────────────────────────────────────────────

/// Why an invocation of llama-bench failed, or none where it did not. `status` is
/// what the system calls its exit.
pub fn exit_problem(killed: bool, success: bool, status: &str, preset: &str, log_path: &str) -> (r: Option<
    String,
>)
    ensures
        opt(r) == if killed {
            Some("Cancelled."@)
        } else if !success {
            Some(
                "llama-bench exited with "@ + status@ + " on preset '"@ + preset@
                    + "'. See the run log ("@ + log_path@ + ")."@,
            )
        } else {
            None
        },
{
    if killed {
        return Some("Cancelled.".to_owned());
    }
    if !success {
        let mut e: String = "llama-bench exited with ".to_owned();
        e.append(status);
        e.append(" on preset '");
        e.append(preset);
        e.append("'. See the run log (");
        e.append(log_path);
        e.append(").");
        return Some(e);
    }
    None
}

/// What a run that failed is told: the rows it has are on disk.
pub fn partial_text(problem: &str, report: &str) -> (r: String)
    ensures
        r@ == problem@ + " (partial results saved to "@ + report@ + ")"@,
{
    let mut out: String = problem.to_owned();
    out.append(" (partial results saved to ");
    out.append(report);
    out.append(")");
    out
}

// ── Laws ─────────────────────────────────────────────────────────────────

/// The live engine runs exactly with the server up, the synthetic one exactly with it
/// down.
pub proof fn law_preflight(running: bool)
    ensures
        preflight_problem(Mode::Live, running) is None <==> running,
        preflight_problem(Mode::Synthetic, running) is None <==> !running,
{
}

/// A run ends behind its last preset, cancelled or not; before that a cancelled one goes
/// no further.
pub proof fn law_runs_end(presets: usize, at: Walk, cancelled: bool)
    ensures
        live_step_at(presets, at, cancelled) == Step::Finish <==> at.preset >= presets,
        live_step_at(presets, at, cancelled) == Step::Cancel <==> at.preset < presets && cancelled,
{
}

/// A reply is a measurement exactly where the server answered 200 and the body is one: it
/// is JSON, names no error and has timings.
pub proof fn law_measurements(preset: Seq<char>, status: u16, v: Result<JsonView, Seq<char>>)
    ensures
        reply_problem(preset, status, body_problem(v)) is None <==> status == 200 && v is Ok && error_message(
            v->Ok_0,
        ) is None && member(v->Ok_0, "timings"@) is Some,
{
}

/// The build of a run is the first that a row names.
pub proof fn law_first_build_counts(build: i64, v: Option<JsonView>, j: JsonView, n: i64)
    ensures
        build_after(Some(build), v) == Some(build),
        build_after(None, None) is None,
        member(j, "build_number"@) == Some(int_json(n)) ==> build_after(None, Some(j)) == Some(n),
{
}

/// The setting of a row is noted under its preset, and a line that is no row notes
/// nothing.
pub proof fn law_settings_of_rows(
    before: Seq<(Seq<char>, Seq<char>)>,
    j: JsonView,
    preset: Seq<char>,
    mean: Seq<char>,
)
    ensures
        member(j, "avg_ts"@) == Some(JsonView::Number(None, mean)) && member(j, "flash_attn"@) == Some(
            JsonView::Bool(true),
        ) ==> settings_after(before, Some(j), preset) == noted(before, preset, "on"@),
        member(j, "avg_ts"@) is None ==> settings_after(before, Some(j), preset) == before,
        settings_after(before, None, preset) == before,
{
}

/// A device is told with its name, or as not detected.
pub proof fn law_device_texts(id: Seq<char>, name: Seq<char>)
    requires
        name.len() > 0,
    ensures
        device_text((id, name)) == id + " = "@ + name,
        device_text((id, Seq::empty())) == id + " (not detected)"@,
{
}

/// The point of a row has its mean and spread, and is of the test that the row names.
pub proof fn law_points_of_rows(
    p: Measured,
    v: JsonView,
    preset: Seq<char>,
    reps: i32,
    mean: Seq<char>,
    sd: Seq<char>,
    n_prompt: i64,
)
    requires
        point_is(p, v, preset, reps),
        member(v, "avg_ts"@) == Some(JsonView::Number(None, mean)),
        member(v, "stddev_ts"@) == Some(JsonView::Number(None, sd)),
        member(v, "n_prompt"@) == Some(int_json(n_prompt)),
        member(v, "n_gen"@) == Some(int_json(0)),
        member(v, "n_depth"@) is None,
        n_prompt > 0,
    ensures
        p.mean@ == mean,
        p.sd@ == sd,
        p.preset@ == preset,
        p.n == reps,
        p.test@ == "pp"@ + dec_int(n_prompt as int),
{
}

} // verus!
