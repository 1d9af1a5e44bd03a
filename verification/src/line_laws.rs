//! What the lines of a run's and a sweep's files say, member by member.
use vstd::prelude::*;
use vstd::string::*;
use crate::bench::{decimal_json, Measured, Plan, Timings};
use crate::exec::detail_object;
use crate::json::{count_json, int_json, lemma_member_at_is, member, texts_json, JsonView};
use crate::report::RunMeta;
use crate::runs::{
    after_line, bench_row_object, header_object, point_in, point_object, sample_object, LoadedView,
};
use crate::sweep::{leg_object, leg_point, sweep_end};
use crate::text::strs;

verus! {

/// The line of a leg has its value, its points, its report, what went wrong and how long
/// it took.
pub proof fn law_leg_line(
    value: Seq<char>,
    points: Seq<Measured>,
    report: Seq<char>,
    error: Seq<char>,
    secs: u64,
)
    ensures
        ({
            let v = leg_object(value, points, report, error, secs);
            &&& member(v, "kind"@) == Some(JsonView::Text("leg"@))
            &&& member(v, "value"@) == Some(JsonView::Text(value))
            &&& member(v, "report"@) == Some(JsonView::Text(report))
            &&& member(v, "error"@) == Some(JsonView::Text(error))
            &&& member(v, "secs"@) == Some(count_json(secs as nat))
            &&& member(v, "points"@) matches Some(JsonView::List(l)) && l.len() == points.len()
                && forall|i: int| 0 <= i < points.len() ==> #[trigger] l[i] == leg_point(points[i])
        }),
{
    reveal_strlit("kind");
    reveal_strlit("value");
    reveal_strlit("points");
    reveal_strlit("report");
    reveal_strlit("error");
    reveal_strlit("secs");
    assert("kind"@.len() == 4);
    assert("value"@.len() == 5);
    assert("points"@.len() == 6);
    assert("report"@.len() == 6);
    assert("error"@.len() == 5);
    assert("secs"@.len() == 4);
    assert("kind"@[0] == 'k');
    assert("secs"@[0] == 's');
    assert("value"@[0] == 'v');
    assert("error"@[0] == 'e');
    assert("points"@[0] == 'p');
    assert("report"@[0] == 'r');
    let m = leg_object(value, points, report, error, secs)->Object_0;
    assert(m[0].0 == "kind"@ && m[1].0 == "value"@ && m[2].0 == "points"@ && m[3].0 == "report"@ && m[4].0 == "error"@ && m[5].0 == "secs"@);
    lemma_member_at_is(m, "kind"@, 0);
    lemma_member_at_is(m, "value"@, 1);
    lemma_member_at_is(m, "points"@, 2);
    lemma_member_at_is(m, "report"@, 3);
    lemma_member_at_is(m, "error"@, 4);
    lemma_member_at_is(m, "secs"@, 5);
}

/// A point of a leg has its test, its mean and spread, and over how many it was taken.
pub proof fn law_leg_point(p: Measured)
    ensures
        member(leg_point(p), "test"@) == Some(JsonView::Text(p.test@)),
        member(leg_point(p), "mean"@) == Some(decimal_json(p.mean@)),
        member(leg_point(p), "sd"@) == Some(decimal_json(p.sd@)),
        member(leg_point(p), "n"@) == Some(int_json(p.n as i64)),
        member(leg_point(p), "note"@) == Some(JsonView::Text(p.note@)),
{
    reveal_strlit("test");
    reveal_strlit("mean");
    reveal_strlit("sd");
    reveal_strlit("n");
    reveal_strlit("note");
    assert("test"@.len() == 4);
    assert("mean"@.len() == 4);
    assert("sd"@.len() == 2);
    assert("n"@.len() == 1);
    assert("note"@.len() == 4);
    assert("test"@[0] == 't');
    assert("mean"@[0] == 'm');
    assert("note"@[0] == 'n');
    let m = leg_point(p)->Object_0;
    assert(m[0].0 == "test"@ && m[1].0 == "mean"@ && m[2].0 == "sd"@ && m[3].0 == "n"@ && m[4].0 == "note"@);
    lemma_member_at_is(m, "test"@, 0);
    lemma_member_at_is(m, "mean"@, 1);
    lemma_member_at_is(m, "sd"@, 2);
    lemma_member_at_is(m, "n"@, 3);
    lemma_member_at_is(m, "note"@, 4);
}

/// The line of a point has what was measured, and is known as one.
pub proof fn law_point_line(p: Measured)
    ensures
        member(point_object(p), "kind"@) == Some(JsonView::Text("point"@)),
        member(point_object(p), "preset"@) == Some(JsonView::Text(p.preset@)),
        member(point_object(p), "test"@) == Some(JsonView::Text(p.test@)),
        member(point_object(p), "mean"@) == Some(decimal_json(p.mean@)),
        member(point_object(p), "sd"@) == Some(decimal_json(p.sd@)),
        member(point_object(p), "n"@) == Some(int_json(p.n as i64)),
        member(point_object(p), "note"@) == Some(JsonView::Text(p.note@)),
{
    reveal_strlit("kind");
    reveal_strlit("preset");
    reveal_strlit("test");
    reveal_strlit("mean");
    reveal_strlit("sd");
    reveal_strlit("n");
    reveal_strlit("note");
    assert("kind"@.len() == 4);
    assert("preset"@.len() == 6);
    assert("test"@.len() == 4);
    assert("mean"@.len() == 4);
    assert("sd"@.len() == 2);
    assert("n"@.len() == 1);
    assert("note"@.len() == 4);
    assert("kind"@[0] == 'k');
    assert("test"@[0] == 't');
    assert("mean"@[0] == 'm');
    assert("note"@[0] == 'n');
    let m = point_object(p)->Object_0;
    assert(m[0].0 == "kind"@ && m[1].0 == "preset"@ && m[2].0 == "test"@ && m[3].0 == "mean"@ && m[4].0 == "sd"@ && m[5].0 == "n"@ && m[6].0 == "note"@);
    lemma_member_at_is(m, "kind"@, 0);
    lemma_member_at_is(m, "preset"@, 1);
    lemma_member_at_is(m, "test"@, 2);
    lemma_member_at_is(m, "mean"@, 3);
    lemma_member_at_is(m, "sd"@, 4);
    lemma_member_at_is(m, "n"@, 5);
    lemma_member_at_is(m, "note"@, 6);
}

/// A line of a point is read as its preset, test, rates and note.
pub proof fn law_point_is_read(v: JsonView, preset: Seq<char>, test: Seq<char>, mean: Seq<char>, sd: Seq<char>, n: i32, note: Seq<char>)
    requires
        member(v, "preset"@) == Some(JsonView::Text(preset)),
        member(v, "test"@) == Some(JsonView::Text(test)),
        member(v, "mean"@) == Some(JsonView::Number(None, mean)),
        member(v, "sd"@) == Some(JsonView::Number(None, sd)),
        member(v, "n"@) == Some(int_json(n as i64)),
        member(v, "note"@) == Some(JsonView::Text(note)),
    ensures
        point_in(v).preset == preset,
        point_in(v).test == test,
        point_in(v).mean == mean,
        point_in(v).sd == sd,
        point_in(v).n == n,
        point_in(v).note == note,
{
}

/// A line that is neither a header nor a point, or is no JSON, changes nothing of a run.
pub proof fn law_other_lines_say_nothing(run: LoadedView, v: JsonView)
    requires
        member(v, "kind"@) != Some(JsonView::Text("run"@)),
        member(v, "kind"@) != Some(JsonView::Text("point"@)),
    ensures
        after_line(run, Some(v)) == run,
        after_line(run, None) == run,
{
    match member(v, "kind"@) {
        Some(JsonView::Text(s)) => {
            assert(s != "run"@ && s != "point"@);
        },
        _ => {},
    }
}

/// The first line of a run names its engine, when it began, the presets in their order
/// and how often each is measured.
pub proof fn law_run_header(plan: Plan, meta: RunMeta)
    ensures
        ({
            let v = header_object(plan, meta);
            &&& member(v, "kind"@) == Some(JsonView::Text("run"@))
            &&& member(v, "mode"@) == Some(JsonView::Text(plan.mode.word()))
            &&& member(v, "stamp"@) == Some(JsonView::Text(meta.stamp@))
            &&& member(v, "presets"@) == Some(texts_json(strs(plan.presets@)))
            &&& member(v, "reps"@) == Some(int_json(plan.reps as i64))
        }),
{
    reveal_strlit("kind");
    reveal_strlit("mode");
    reveal_strlit("stamp");
    reveal_strlit("presets");
    reveal_strlit("reps");
    reveal_strlit("server_version");
    assert("kind"@.len() == 4);
    assert("mode"@.len() == 4);
    assert("stamp"@.len() == 5);
    assert("presets"@.len() == 7);
    assert("reps"@.len() == 4);
    assert("server_version"@.len() == 14);
    assert("kind"@[0] == 'k');
    assert("mode"@[0] == 'm');
    assert("reps"@[0] == 'r');
    let m = header_object(plan, meta)->Object_0;
    assert(m[0].0 == "kind"@ && m[1].0 == "mode"@ && m[2].0 == "stamp"@ && m[3].0 == "presets"@ && m[4].0 == "reps"@ && m[5].0 == "server_version"@);
    lemma_member_at_is(m, "kind"@, 0);
    lemma_member_at_is(m, "mode"@, 1);
    lemma_member_at_is(m, "stamp"@, 2);
    lemma_member_at_is(m, "presets"@, 3);
    lemma_member_at_is(m, "reps"@, 4);
}

/// The line of a repetition has its rate, and which repetition of which test it was.
pub proof fn law_sample_line(preset: Seq<char>, test: Seq<char>, rep: i64, tps: Seq<char>, detail: JsonView)
    ensures
        ({
            let v = sample_object(preset, test, rep, tps, detail);
            &&& member(v, "kind"@) == Some(JsonView::Text("sample"@))
            &&& member(v, "preset"@) == Some(JsonView::Text(preset))
            &&& member(v, "test"@) == Some(JsonView::Text(test))
            &&& member(v, "rep"@) == Some(int_json(rep))
            &&& member(v, "tps"@) == Some(decimal_json(tps))
            &&& member(v, "detail"@) == Some(detail)
        }),
{
    reveal_strlit("kind");
    reveal_strlit("preset");
    reveal_strlit("test");
    reveal_strlit("rep");
    reveal_strlit("tps");
    reveal_strlit("detail");
    assert("kind"@.len() == 4);
    assert("preset"@.len() == 6);
    assert("test"@.len() == 4);
    assert("rep"@.len() == 3);
    assert("tps"@.len() == 3);
    assert("detail"@.len() == 6);
    assert("kind"@[0] == 'k');
    assert("test"@[0] == 't');
    assert("preset"@[0] == 'p');
    assert("detail"@[0] == 'd');
    assert("rep"@[0] == 'r');
    assert("tps"@[0] == 't');
    let m = sample_object(preset, test, rep, tps, detail)->Object_0;
    assert(m[0].0 == "kind"@ && m[1].0 == "preset"@ && m[2].0 == "test"@ && m[3].0 == "rep"@ && m[4].0 == "tps"@ && m[5].0 == "detail"@);
    lemma_member_at_is(m, "kind"@, 0);
    lemma_member_at_is(m, "preset"@, 1);
    lemma_member_at_is(m, "test"@, 2);
    lemma_member_at_is(m, "rep"@, 3);
    lemma_member_at_is(m, "tps"@, 4);
    lemma_member_at_is(m, "detail"@, 5);
}

/// A row of llama-bench is kept whole, under its preset.
pub proof fn law_row_line(preset: Seq<char>, row: JsonView)
    ensures
        member(bench_row_object(preset, Some(row)), "kind"@) == Some(JsonView::Text("bench_row"@)),
        member(bench_row_object(preset, Some(row)), "preset"@) == Some(JsonView::Text(preset)),
        member(bench_row_object(preset, Some(row)), "row"@) == Some(row),
{
    reveal_strlit("kind");
    reveal_strlit("preset");
    reveal_strlit("row");
    assert("kind"@.len() == 4);
    assert("preset"@.len() == 6);
    assert("row"@.len() == 3);
    let m = bench_row_object(preset, Some(row))->Object_0;
    assert(m[0].0 == "kind"@ && m[1].0 == "preset"@ && m[2].0 == "row"@);
    lemma_member_at_is(m, "kind"@, 0);
    lemma_member_at_is(m, "preset"@, 1);
    lemma_member_at_is(m, "row"@, 2);
}

/// What is kept of a repetition are the counts of its timings, each under its name.
pub proof fn law_detail(t: Timings, pct: Option<Seq<char>>)
    ensures
        ({
            let v = detail_object(t, pct);
            &&& member(v, "prompt_n"@) == Some(int_json(t.prompt_n))
            &&& member(v, "predicted_n"@) == Some(int_json(t.predicted_n))
            &&& member(v, "cache_n"@) == Some(int_json(t.cache_n))
            &&& member(v, "draft_n"@) == Some(int_json(t.draft_n))
            &&& member(v, "draft_n_accepted"@) == Some(int_json(t.draft_accepted))
            &&& pct matches Some(s) ==> member(v, "draft_acceptance_pct"@) == Some(decimal_json(s))
            &&& pct is None ==> member(v, "draft_acceptance_pct"@) == Some(JsonView::Null)
        }),
{
    reveal_strlit("prompt_n");
    reveal_strlit("predicted_n");
    reveal_strlit("cache_n");
    reveal_strlit("draft_n");
    reveal_strlit("draft_n_accepted");
    reveal_strlit("draft_acceptance_pct");
    assert("prompt_n"@.len() == 8);
    assert("predicted_n"@.len() == 11);
    assert("cache_n"@.len() == 7);
    assert("draft_n"@.len() == 7);
    assert("draft_n_accepted"@.len() == 16);
    assert("draft_acceptance_pct"@.len() == 20);
    assert("cache_n"@[0] == 'c');
    assert("draft_n"@[0] == 'd');
    let m = detail_object(t, pct)->Object_0;
    assert(m[0].0 == "prompt_n"@ && m[1].0 == "predicted_n"@ && m[2].0 == "cache_n"@ && m[3].0 == "draft_n"@ && m[4].0 == "draft_n_accepted"@ && m[5].0 == "draft_acceptance_pct"@);
    lemma_member_at_is(m, "prompt_n"@, 0);
    lemma_member_at_is(m, "predicted_n"@, 1);
    lemma_member_at_is(m, "cache_n"@, 2);
    lemma_member_at_is(m, "draft_n"@, 3);
    lemma_member_at_is(m, "draft_n_accepted"@, 4);
    lemma_member_at_is(m, "draft_acceptance_pct"@, 5);
}

/// The last line of a sweep's file says what the preset was left on.
pub proof fn law_sweep_end(applied: Seq<char>, legs: nat)
    ensures
        member(sweep_end(applied, legs), "kind"@) == Some(JsonView::Text("end"@)),
        member(sweep_end(applied, legs), "applied"@) == Some(JsonView::Text(applied)),
        member(sweep_end(applied, legs), "legs"@) == Some(count_json(legs)),
{
    reveal_strlit("kind");
    reveal_strlit("applied");
    reveal_strlit("legs");
    assert("kind"@.len() == 4);
    assert("applied"@.len() == 7);
    assert("legs"@.len() == 4);
    assert("kind"@[0] == 'k');
    assert("legs"@[0] == 'l');
    let m = sweep_end(applied, legs)->Object_0;
    assert(m[0].0 == "kind"@ && m[1].0 == "applied"@ && m[2].0 == "legs"@);
    lemma_member_at_is(m, "kind"@, 0);
    lemma_member_at_is(m, "applied"@, 1);
    lemma_member_at_is(m, "legs"@, 2);
}

} // verus!
