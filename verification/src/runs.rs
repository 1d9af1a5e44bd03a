//! A run on disk: lines of JSON, appended as they come, and read back.
//!
//! A line is written the moment a point is measured, and again each time the point
//! is revised; on reload the last line of a preset and test counts. Lines that
//! cannot be read are passed over: a run that was killed can end in half of one.
use vstd::prelude::*;
use vstd::slice::slice_subrange;
use vstd::string::*;
use vstd::utf8::encode_utf8;
use crate::bench::{
    decimal_json, decimal_number, prompt_info, rate_at, rate_or_zero, Measured, Mode,
    Plan,
};
use crate::json::{
    count_json, int_at, int_json, int_or_zero, is_record, is_scalar, json_compact, json_value,
    keeps, lemma_member_at_is, member, read_json, shape_of, text_at, text_of, text_or_empty,
    texts_json, write_compact, Json, JsonView,
};
use crate::report::RunMeta;
use crate::rounding::{as_double, nearest_double, push_wide, quotient_whole, whole_quotient};
use crate::sha256::hex_digest;
use crate::text::{
    dec, dec_int, ends_with, from_chars, has_prefix, has_suffix, lemma_lines_append, lemma_lines_one,
    lemma_text_less_total, lemma_text_less_transitive, lemma_trim_end_shape, lemma_trim_start_shape, lines, lines_of,
    list_has, opt, pieces, push_int, starts_with, str_eq, str_less, strip_cr, strs, text_less, to_chars, trim,
    trim_start, trimmed,
};

verus! {

// ── Writing ──────────────────────────────────────────────────────────────

/// The first line of a run.
pub open spec fn header_object(plan: Plan, meta: RunMeta) -> JsonView {
    let base = seq![
        ("kind"@, JsonView::Text("run"@)),
        ("mode"@, JsonView::Text(plan.mode.word())),
        ("stamp"@, JsonView::Text(meta.stamp@)),
        ("presets"@, texts_json(strs(plan.presets@))),
        ("reps"@, int_json(plan.reps as i64)),
        ("server_version"@, JsonView::Text(meta.server_version@)),
    ];
    JsonView::Object(
        if plan.mode == Mode::Live {
            base + seq![
                (
                    "prompt_file"@,
                    match plan.prompt_file {
                        Some(p) => JsonView::Text(p@),
                        None => JsonView::Null,
                    },
                ),
                ("prompt_chars"@, count_json(plan.prompt@.len())),
                ("prompt_sha256"@, JsonView::Text(hex_digest(encode_utf8(plan.prompt@)))),
            ]
        } else {
            base
        },
    )
}

/// The first line of a run: the plan, and for a live one the prompt's identity.
pub fn run_header_json(plan: &Plan, meta: &RunMeta) -> (r: String)
    ensures
        r@ == json_compact(header_object(*plan, *meta)),
        is_line(r@),
        forall|run: LoadedView| #[trigger]
            after_line(run, json_value(r@)) == (LoadedView {
                mode_label: plan.mode.word(),
                presets: strs(plan.presets@),
                points: run.points,
            }),
{
    let mut m: Vec<(String, Json)> = Vec::new();
    m.push(("kind".to_owned(), Json::text("run")));
    m.push(("mode".to_owned(), Json::text(plan.mode.as_str())));
    m.push(("stamp".to_owned(), Json::text(meta.stamp.as_str())));
    m.push(("presets".to_owned(), Json::texts(&plan.presets)));
    m.push(("reps".to_owned(), Json::number(plan.reps as i64)));
    m.push(("server_version".to_owned(), Json::text(meta.server_version.as_str())));
    match plan.mode {
        Mode::Live => {
            let info = prompt_info(plan.prompt.as_str());
            let file = match &plan.prompt_file {
                Some(p) => Json::text(p.as_str()),
                None => Json::Null,
            };
            m.push(("prompt_file".to_owned(), file));
            m.push(("prompt_chars".to_owned(), Json::count(info.chars)));
            m.push(("prompt_sha256".to_owned(), Json::text(info.sha256.as_str())));
        },
        Mode::Synthetic => {},
    }
    let j = Json::Object(m);
    assert(j.shape()->Object_0 =~= header_object(*plan, *meta)->Object_0);
    proof {
        lemma_header_members(*plan, *meta);
        lemma_texts_in(strs(plan.presets@));
    }
    let out = write_compact(&j);
    proof {
        lemma_braces(out@);
    }
    out
}

/// A line that is read as it is: nothing is trimmed off, and it ends where it ends.
pub open spec fn is_line(s: Seq<char>) -> bool {
    s.len() > 0 && !s.contains('\n') && trim(s) == s
}

proof fn lemma_braces(s: Seq<char>)
    requires
        s.len() >= 2,
        s[0] == '{',
        s.last() == '}',
        !s.contains('\n'),
    ensures
        is_line(s),
{
}

proof fn lemma_texts_in(v: Seq<Seq<char>>)
    ensures
        texts_in(texts_json(v)->List_0) == v,
        keeps(texts_json(v)),
    decreases v.len(),
{
    let l = texts_json(v)->List_0;
    if v.len() > 0 {
        let init = v.drop_last();
        lemma_texts_in(init);
        assert(texts_json(init)->List_0 =~= l.drop_last());
        assert(texts_in(l) =~= init.push(v.last()));
        assert(init.push(v.last()) =~= v);
    } else {
        assert(texts_in(l) =~= v);
    }
}

proof fn lemma_header_members(plan: Plan, meta: RunMeta)
    ensures
        is_record(header_object(plan, meta)),
        member(header_object(plan, meta), "kind"@) == Some(JsonView::Text("run"@)),
        member(header_object(plan, meta), "mode"@) == Some(JsonView::Text(plan.mode.word())),
        member(header_object(plan, meta), "presets"@) == Some(texts_json(strs(plan.presets@))),
{
    let m = header_object(plan, meta)->Object_0;
    reveal_strlit("kind");
    reveal_strlit("mode");
    reveal_strlit("stamp");
    reveal_strlit("presets");
    reveal_strlit("reps");
    reveal_strlit("server_version");
    reveal_strlit("prompt_file");
    reveal_strlit("prompt_chars");
    reveal_strlit("prompt_sha256");
    assert("kind"@.len() == 4 && "mode"@.len() == 4 && "stamp"@.len() == 5 && "presets"@.len() == 7
        && "reps"@.len() == 4 && "server_version"@.len() == 14 && "prompt_file"@.len() == 11
        && "prompt_chars"@.len() == 12 && "prompt_sha256"@.len() == 13);
    assert("kind"@[0] == 'k' && "mode"@[0] == 'm' && "reps"@[0] == 'r');
    assert forall|i: int, k: int| 0 <= i < k < m.len() implies (#[trigger] m[i]).0 != (
    #[trigger] m[k]).0 by {}
    assert forall|i: int| 0 <= i < m.len() implies match (#[trigger] m[i]).1 {
        JsonView::List(l) => forall|k: int| 0 <= k < l.len() ==> is_scalar(#[trigger] l[k]),
        JsonView::Object(_) => false,
        _ => true,
    } by {}
    lemma_member_at_is(m, "kind"@, 0);
    lemma_member_at_is(m, "mode"@, 1);
    lemma_member_at_is(m, "presets"@, 3);
}

/// A point as a line.
pub open spec fn point_object(p: Measured) -> JsonView {
    JsonView::Object(
        seq![
            ("kind"@, JsonView::Text("point"@)),
            ("preset"@, JsonView::Text(p.preset@)),
            ("test"@, JsonView::Text(p.test@)),
            ("mean"@, decimal_json(p.mean@)),
            ("sd"@, decimal_json(p.sd@)),
            ("n"@, int_json(p.n as i64)),
            ("note"@, JsonView::Text(p.note@)),
        ],
    )
}

/// Whether the rates of a point are numerals that read as themselves.
pub open spec fn rates_keep(p: Measured) -> bool {
    keeps(decimal_json(p.mean@)) && keeps(decimal_json(p.sd@))
}

/// A point as it is read back. A rate that is no number reads as 0.
pub open spec fn kept_point(p: Measured) -> MeasuredView {
    MeasuredView {
        mean: rate_or_zero(Some(decimal_json(p.mean@))),
        sd: rate_or_zero(Some(decimal_json(p.sd@))),
        ..p@
    }
}

/// A point as a line, which is read back as that point.
pub fn point_json(p: &Measured) -> (r: String)
    ensures
        r@ == json_compact(point_object(*p)),
        is_line(r@),
        rates_keep(*p) ==> forall|run: LoadedView| #[trigger]
            after_line(run, json_value(r@)) == (LoadedView {
                points: revised(run.points, kept_point(*p)),
                ..run
            }),
{
    let mut m: Vec<(String, Json)> = Vec::new();
    m.push(("kind".to_owned(), Json::text("point")));
    m.push(("preset".to_owned(), Json::text(p.preset.as_str())));
    m.push(("test".to_owned(), Json::text(p.test.as_str())));
    m.push(("mean".to_owned(), decimal_number(p.mean.as_str())));
    m.push(("sd".to_owned(), decimal_number(p.sd.as_str())));
    m.push(("n".to_owned(), Json::number(p.n as i64)));
    m.push(("note".to_owned(), Json::text(p.note.as_str())));
    let j = Json::Object(m);
    assert(j.shape()->Object_0 =~= point_object(*p)->Object_0);
    proof {
        lemma_point_members(*p);
    }
    let out = write_compact(&j);
    proof {
        lemma_braces(out@);
        if rates_keep(*p) {
            assert(point_in(json_value(out@)->0) =~= kept_point(*p));
        }
    }
    out
}

proof fn lemma_point_members(p: Measured)
    ensures
        is_record(point_object(p)),
        "run"@ != "point"@,
        member(point_object(p), "kind"@) == Some(JsonView::Text("point"@)),
        member(point_object(p), "preset"@) == Some(JsonView::Text(p.preset@)),
        member(point_object(p), "test"@) == Some(JsonView::Text(p.test@)),
        member(point_object(p), "mean"@) == Some(decimal_json(p.mean@)),
        member(point_object(p), "sd"@) == Some(decimal_json(p.sd@)),
        member(point_object(p), "n"@) == Some(int_json(p.n as i64)),
        member(point_object(p), "note"@) == Some(JsonView::Text(p.note@)),
{
    let m = point_object(p)->Object_0;
    reveal_strlit("run");
    reveal_strlit("point");
    reveal_strlit("kind");
    reveal_strlit("preset");
    reveal_strlit("test");
    reveal_strlit("mean");
    reveal_strlit("sd");
    reveal_strlit("n");
    reveal_strlit("note");
    assert("run"@.len() == 3 && "point"@.len() == 5);
    assert("kind"@.len() == 4 && "preset"@.len() == 6 && "test"@.len() == 4 && "mean"@.len() == 4
        && "sd"@.len() == 2 && "n"@.len() == 1 && "note"@.len() == 4);
    assert("kind"@[0] == 'k' && "test"@[0] == 't' && "mean"@[0] == 'm' && "note"@[0] == 'n');
    assert forall|i: int, k: int| 0 <= i < k < m.len() implies (#[trigger] m[i]).0 != (
    #[trigger] m[k]).0 by {}
    assert forall|i: int| 0 <= i < m.len() implies match (#[trigger] m[i]).1 {
        JsonView::List(l) => forall|k: int| 0 <= k < l.len() ==> is_scalar(#[trigger] l[k]),
        JsonView::Object(_) => false,
        _ => true,
    } by {}
    lemma_member_at_is(m, "kind"@, 0);
    lemma_member_at_is(m, "preset"@, 1);
    lemma_member_at_is(m, "test"@, 2);
    lemma_member_at_is(m, "mean"@, 3);
    lemma_member_at_is(m, "sd"@, 4);
    lemma_member_at_is(m, "n"@, 5);
    lemma_member_at_is(m, "note"@, 6);
}

/// A row of llama-bench, kept beside the point that came of it.
pub open spec fn bench_row_object(preset: Seq<char>, row: Option<JsonView>) -> JsonView {
    JsonView::Object(
        seq![
            ("kind"@, JsonView::Text("bench_row"@)),
            ("preset"@, JsonView::Text(preset)),
            (
                "row"@,
                match row {
                    Some(v) => v,
                    None => JsonView::Null,
                },
            ),
        ],
    )
}

/// Wraps a row that was read; none where it was not JSON.
pub fn wrap_bench_row(preset: &str, row: Option<Json>) -> (r: String)
    ensures
        r@ == json_compact(
            bench_row_object(preset@, shape_of(row)),
        ),
{
    let ghost want = bench_row_object(preset@, shape_of(row));
    let mut m: Vec<(String, Json)> = Vec::new();
    let value = match row {
        Some(v) => v,
        None => Json::Null,
    };
    assert(Json::Null.shape() == JsonView::Null);
    m.push(("kind".to_owned(), Json::text("bench_row")));
    m.push(("preset".to_owned(), Json::text(preset)));
    m.push(("row".to_owned(), value));
    let j = Json::Object(m);
    assert(j.shape()->Object_0 =~= want->Object_0);
    write_compact(&j)
}

/// A row of llama-bench as a line. What is not JSON is kept as null.
pub fn bench_row_json(preset: &str, row: &str) -> (r: String)
    ensures
        r@ == json_compact(bench_row_object(preset@, json_value(trim(row@)))),
{
    let c = to_chars(row);
    let t = from_chars(trimmed(c.as_slice()));
    wrap_bench_row(preset, read_json(t.as_str()))
}

/// One repetition, kept beside the points that it feeds.
pub open spec fn sample_object(
    preset: Seq<char>,
    test: Seq<char>,
    rep: i64,
    tps: Seq<char>,
    detail: JsonView,
) -> JsonView {
    JsonView::Object(
        seq![
            ("kind"@, JsonView::Text("sample"@)),
            ("preset"@, JsonView::Text(preset)),
            ("test"@, JsonView::Text(test)),
            ("rep"@, int_json(rep)),
            ("tps"@, decimal_json(tps)),
            ("detail"@, detail),
        ],
    )
}

/// One repetition as a line.
pub fn sample_json(preset: &str, test: &str, rep: i32, tps: &str, detail: Json) -> (r: String)
    ensures
        r@ == json_compact(sample_object(preset@, test@, rep as i64, tps@, detail.shape())),
{
    let ghost d = detail.shape();
    let mut m: Vec<(String, Json)> = Vec::new();
    m.push(("kind".to_owned(), Json::text("sample")));
    m.push(("preset".to_owned(), Json::text(preset)));
    m.push(("test".to_owned(), Json::text(test)));
    m.push(("rep".to_owned(), Json::number(rep as i64)));
    m.push(("tps".to_owned(), decimal_number(tps)));
    m.push(("detail".to_owned(), detail));
    let j = Json::Object(m);
    assert(j.shape()->Object_0 =~= sample_object(preset@, test@, rep as i64, tps@, d)->Object_0);
    write_compact(&j)
}

// ── Reading ──────────────────────────────────────────────────────────────

/// A run read back.
#[derive(Debug, PartialEq, Eq)]
pub struct Loaded {
    pub mode_label: String,
    pub presets: Vec<String>,
    pub points: Vec<Measured>,
}

/// A measured test as text and numbers.
#[verifier::ext_equal]
pub struct MeasuredView {
    pub preset: Seq<char>,
    pub test: Seq<char>,
    pub mean: Seq<char>,
    pub sd: Seq<char>,
    pub n: i32,
    pub note: Seq<char>,
}

impl View for Measured {
    type V = MeasuredView;

    open spec fn view(&self) -> MeasuredView {
        MeasuredView {
            preset: self.preset@,
            test: self.test@,
            mean: self.mean@,
            sd: self.sd@,
            n: self.n,
            note: self.note@,
        }
    }
}

/// A run as text and numbers.
#[verifier::ext_equal]
pub struct LoadedView {
    pub mode_label: Seq<char>,
    pub presets: Seq<Seq<char>>,
    pub points: Seq<MeasuredView>,
}

impl View for Loaded {
    type V = LoadedView;

    open spec fn view(&self) -> LoadedView {
        LoadedView {
            mode_label: self.mode_label@,
            presets: strs(self.presets@),
            points: self.points@.map_values(|p: Measured| p@),
        }
    }
}

/// The texts among the items of a list.
pub open spec fn texts_in(v: Seq<JsonView>) -> Seq<Seq<char>>
    decreases v.len(),
{
    if v.len() == 0 {
        Seq::empty()
    } else {
        match v.last() {
            JsonView::Text(s) => texts_in(v.drop_last()).push(s),
            _ => texts_in(v.drop_last()),
        }
    }
}

/// The texts of a member that is a list.
pub open spec fn text_list(v: Option<JsonView>) -> Seq<Seq<char>> {
    match v {
        Some(JsonView::List(l)) => texts_in(l),
        _ => Seq::empty(),
    }
}

/// The point that a line holds.
pub open spec fn point_in(v: JsonView) -> MeasuredView {
    MeasuredView {
        preset: text_or_empty(member(v, "preset"@)),
        test: text_or_empty(member(v, "test"@)),
        mean: rate_or_zero(member(v, "mean"@)),
        sd: rate_or_zero(member(v, "sd"@)),
        n: int_or_zero(member(v, "n"@)) as i32,
        note: text_or_empty(member(v, "note"@)),
    }
}

/// The place of a preset and test among the points, or -1.
pub open spec fn measured_at(ps: Seq<MeasuredView>, preset: Seq<char>, test: Seq<char>) -> int
    decreases ps.len(),
{
    if ps.len() == 0 {
        -1
    } else if measured_at(ps.drop_last(), preset, test) >= 0 {
        measured_at(ps.drop_last(), preset, test)
    } else if ps.last().preset == preset && ps.last().test == test {
        ps.len() - 1
    } else {
        -1
    }
}

/// The points after one more line: the last line of a preset and test counts.
pub open spec fn revised(ps: Seq<MeasuredView>, p: MeasuredView) -> Seq<MeasuredView> {
    let at = measured_at(ps, p.preset, p.test);
    if at >= 0 {
        ps.update(at, p)
    } else {
        ps.push(p)
    }
}

/// A run after one more line.
pub open spec fn after_line(run: LoadedView, v: Option<JsonView>) -> LoadedView {
    match v {
        Some(j) => {
            let kind = text_of(member(j, "kind"@));
            if kind == Some("run"@) {
                LoadedView {
                    mode_label: text_or_empty(member(j, "mode"@)),
                    presets: text_list(member(j, "presets"@)),
                    points: run.points,
                }
            } else if kind == Some("point"@) {
                LoadedView {
                    mode_label: run.mode_label,
                    presets: run.presets,
                    points: revised(run.points, point_in(j)),
                }
            } else {
                run
            }
        },
        None => run,
    }
}

/// A run after some lines.
pub open spec fn after_lines(ls: Seq<Seq<char>>) -> LoadedView
    decreases ls.len(),
{
    if ls.len() == 0 {
        LoadedView { mode_label: Seq::empty(), presets: Seq::empty(), points: Seq::empty() }
    } else {
        after_line(after_lines(ls.drop_last()), json_value(trim(ls.last())))
    }
}

/// The presets in their order, and behind them those that only the points name.
pub open spec fn with_missing(presets: Seq<Seq<char>>, ps: Seq<MeasuredView>) -> Seq<Seq<char>>
    decreases ps.len(),
{
    if ps.len() == 0 {
        presets
    } else {
        let before = with_missing(presets, ps.drop_last());
        if before.contains(ps.last().preset) {
            before
        } else {
            before.push(ps.last().preset)
        }
    }
}

/// The run that a text holds.
pub open spec fn run_in(text: Seq<char>) -> LoadedView {
    let run = after_lines(lines(text));
    LoadedView {
        mode_label: run.mode_label,
        presets: with_missing(run.presets, run.points),
        points: run.points,
    }
}

/// A line appended to a run's file is read behind all that stood there: nothing of
/// it changes but what the line says.
pub proof fn law_appended_line_is_read_last(text: Seq<char>, line: Seq<char>)
    requires
        text.len() == 0 || text.last() == '\n',
        is_line(line),
    ensures
        after_lines(lines(text + line + seq!['\n'])) == after_line(
            after_lines(lines(text)),
            json_value(line),
        ),
{
    let one = line + seq!['\n'];
    assert(text + line + seq!['\n'] =~= text + one);
    lemma_lines_append(text, one);
    lemma_lines_one(line);
    lemma_trim_start_shape(line);
    lemma_trim_end_shape(trim_start(line));
    assert(strip_cr(line) == line);
    let all = lines(text) + seq![line];
    assert(all.drop_last() =~= lines(text));
    assert(all.last() == line);
}

/// A run's file is listed under the stamp it was named with.
pub proof fn law_run_is_listed(stamp: Seq<char>)
    ensures
        stamp_in("bench-"@ + stamp + ".jsonl"@) == Some(stamp),
{
    let a = "bench-"@;
    let z = ".jsonl"@;
    let name = a + stamp + z;
    assert(name.subrange(0, a.len() as int) =~= a);
    let rest = name.skip(a.len() as int);
    assert(rest =~= stamp + z);
    assert(rest.subrange(rest.len() - z.len(), rest.len() as int) =~= z);
    assert(rest.take(rest.len() - z.len()) =~= stamp);
}

fn texts_of_list(j: Option<&Json>) -> (r: Vec<String>)
    ensures
        strs(r@) == text_list(
            match j {
                Some(v) => Some(v.shape()),
                None => None,
            },
        ),
{
    let mut out: Vec<String> = Vec::new();
    match j {
        Some(Json::List(v)) => {
            let ghost l = j->0.shape()->List_0;
            let mut i: usize = 0;
            assert(strs(out@) =~= texts_in(l.take(0)));
            while i < v.len()
                invariant
                    i <= v.len(),
                    l.len() == v@.len(),
                    forall|k: int| 0 <= k < v@.len() ==> #[trigger] l[k] == v@[k].shape(),
                    strs(out@) == texts_in(l.take(i as int)),
                decreases v.len() - i,
            {
                let ghost before = out@;
                proof {
                    assert(l.take(i + 1).drop_last() =~= l.take(i as int));
                    assert(l.take(i + 1).last() == v@[i as int].shape());
                }
                if let Some(s) = v[i].as_str() {
                    out.push(s.to_owned());
                    assert(strs(out@) =~= strs(before).push(s@));
                }
                i += 1;
            }
            assert(l.take(v@.len() as int) =~= l);
        },
        _ => {
            assert(strs(out@) =~= Seq::<Seq<char>>::empty());
        },
    }
    out
}

fn truncated(n: i64) -> (r: i32)
    ensures
        r == n as i32,
{
    #[verifier::truncate]
    (n as i32)
}

fn revise(points: &mut Vec<Measured>, p: Measured)
    ensures
        final(points)@.map_values(|q: Measured| q@) == revised(
            old(points)@.map_values(|q: Measured| q@),
            p@,
        ),
{
    let ghost before = points@;
    let ghost view = before.map_values(|q: Measured| q@);
    let mut i: usize = 0;
    while i < points.len()
        invariant
            i <= points.len(),
            points@ == before,
            before == old(points)@,
            view == before.map_values(|q: Measured| q@),
            measured_at(view.take(i as int), p.preset@, p.test@) < 0,
        decreases points.len() - i,
    {
        proof {
            let t = view.take(i + 1);
            assert(t.drop_last() =~= view.take(i as int));
            assert(t.last() == before[i as int]@);
        }
        if str_eq(points[i].preset.as_str(), p.preset.as_str()) && str_eq(
            points[i].test.as_str(),
            p.test.as_str(),
        ) {
            proof {
                lemma_measured_at_prefix(view, p.preset@, p.test@, i + 1);
                assert(before.update(i as int, p).map_values(|q: Measured| q@) =~= view.update(
                    i as int,
                    p@,
                ));
            }
            points.set(i, p);
            return;
        }
        i += 1;
    }
    assert(view.take(before.len() as int) =~= view);
    points.push(p);
    assert(points@.map_values(|q: Measured| q@) =~= view.push(p@));
}

proof fn lemma_measured_at_prefix(ps: Seq<MeasuredView>, preset: Seq<char>, test: Seq<char>, n: int)
    requires
        0 <= n <= ps.len(),
        measured_at(ps.take(n), preset, test) >= 0,
    ensures
        measured_at(ps, preset, test) == measured_at(ps.take(n), preset, test),
    decreases ps.len() - n,
{
    if n == ps.len() {
        assert(ps.take(n) =~= ps);
    } else {
        assert(ps.take(n + 1).drop_last() =~= ps.take(n));
        lemma_measured_at_prefix(ps, preset, test, n + 1);
    }
}

/// Takes in one line of a run that was JSON, or was not.
pub fn load_line(run: &mut Loaded, v: Option<Json>)
    ensures
        final(run)@ == after_line(old(run)@, shape_of(v)),
{
    if let Some(j) = v {
        let kind = match j.get("kind") {
            Some(k) => k.as_str(),
            None => None,
        };
        if let Some(k) = kind {
            if str_eq(k, "run") {
                run.mode_label = text_at(&j, "mode");
                run.presets = texts_of_list(j.get("presets"));
                return;
            }
            proof {
                reveal_strlit("run");
                reveal_strlit("point");
                assert("run"@.len() != "point"@.len());
            }
            if str_eq(k, "point") {
                let p = Measured {
                    preset: text_at(&j, "preset"),
                    test: text_at(&j, "test"),
                    mean: rate_at(&j, "mean"),
                    sd: rate_at(&j, "sd"),
                    n: truncated(int_at(&j, "n")),
                    note: text_at(&j, "note"),
                };
                assert(p@ =~= point_in(j.shape()));
                revise(&mut run.points, p);
            }
        }
    }
}

/// Puts the presets that only the points name behind the others.
pub fn complete_presets(run: &mut Loaded)
    ensures
        final(run)@ == (LoadedView {
            mode_label: old(run)@.mode_label,
            presets: with_missing(old(run)@.presets, old(run)@.points),
            points: old(run)@.points,
        }),
{
    let ghost ps = run@.points;
    let ghost first = run@.presets;
    let mut i: usize = 0;
    assert(with_missing(first, ps.take(0)) == first);
    while i < run.points.len()
        invariant
            i <= run.points@.len(),
            run.points@ == old(run).points@,
            run.mode_label@ == old(run).mode_label@,
            ps == run.points@.map_values(|p: Measured| p@),
            strs(run.presets@) == with_missing(first, ps.take(i as int)),
        decreases run.points.len() - i,
    {
        let ghost before = run.presets@;
        proof {
            assert(ps.take(i + 1).drop_last() =~= ps.take(i as int));
            assert(ps.take(i + 1).last() == run.points@[i as int]@);
        }
        if !list_has(&run.presets, run.points[i].preset.as_str()) {
            let id = run.points[i].preset.clone();
            run.presets.push(id);
            assert(strs(run.presets@) =~= strs(before).push(id@));
        }
        i += 1;
    }
    assert(ps.take(run.points@.len() as int) =~= ps);
}

/// Reads a run out of the text of its file.
pub fn load_run(text: &str) -> (r: Loaded)
    ensures
        r@ == run_in(text@),
{
    let c = to_chars(text);
    let ls = lines_of(c.as_slice());
    let mut out = Loaded { mode_label: String::new(), presets: Vec::new(), points: Vec::new() };
    let mut i: usize = 0;
    assert(out@ =~= after_lines(pieces(ls@).take(0)));
    while i < ls.len()
        invariant
            i <= ls.len(),
            out@ == after_lines(pieces(ls@).take(i as int)),
        decreases ls.len() - i,
    {
        proof {
            assert(pieces(ls@).take(i + 1).drop_last() =~= pieces(ls@).take(i as int));
            assert(pieces(ls@).take(i + 1).last() == ls@[i as int]@);
        }
        let t = from_chars(trimmed(ls[i]));
        load_line(&mut out, read_json(t.as_str()));
        i += 1;
    }
    assert(pieces(ls@).take(ls@.len() as int) =~= pieces(ls@));
    complete_presets(&mut out);
    out
}

/// Whatever the lines of a run are, it has one point for each preset and test.
pub proof fn law_one_point_each(ls: Seq<Seq<char>>)
    ensures
        ({
            let ps = after_lines(ls).points;
            forall|i: int, j: int|
                0 <= i < j < ps.len() ==> !((#[trigger] ps[i]).preset == (#[trigger] ps[j]).preset
                    && ps[i].test == ps[j].test)
        }),
    decreases ls.len(),
{
    if ls.len() > 0 {
        law_one_point_each(ls.drop_last());
        let run = after_lines(ls.drop_last());
        if let Some(j) = json_value(trim(ls.last())) {
            let p = point_in(j);
            lemma_measured_at(run.points, p.preset, p.test);
            let at = measured_at(run.points, p.preset, p.test);
            let now = revised(run.points, p);
            assert forall|i: int, k: int| 0 <= i < k < now.len() implies !((#[trigger] now[i]).preset
                == (#[trigger] now[k]).preset && now[i].test == now[k].test) by {
                if at >= 0 {
                    if i == at {
                        assert(now[k] == run.points[k] && run.points[at].preset == p.preset);
                    } else if k == at {
                        assert(now[i] == run.points[i] && run.points[at].preset == p.preset);
                    } else {
                        assert(now[i] == run.points[i] && now[k] == run.points[k]);
                    }
                } else {
                    assert(now[i] == run.points[i]);
                    if k < run.points.len() {
                        assert(now[k] == run.points[k]);
                    }
                }
            }
        }
    }
}

proof fn lemma_measured_at(ps: Seq<MeasuredView>, preset: Seq<char>, test: Seq<char>)
    ensures
        -1 <= measured_at(ps, preset, test) < ps.len(),
        measured_at(ps, preset, test) >= 0 ==> ps[measured_at(ps, preset, test)].preset == preset
            && ps[measured_at(ps, preset, test)].test == test,
        measured_at(ps, preset, test) < 0 ==> forall|k: int|
            0 <= k < ps.len() ==> !((#[trigger] ps[k]).preset == preset && ps[k].test == test),
    decreases ps.len(),
{
    if ps.len() > 0 {
        let init = ps.drop_last();
        lemma_measured_at(init, preset, test);
        assert forall|k: int|
            0 <= k < ps.len() && measured_at(ps, preset, test) < 0 implies !((#[trigger] ps[k]).preset
            == preset && ps[k].test == test) by {
            if k < init.len() {
                assert(ps[k] == init[k]);
            }
        }
    }
}

// ── Which runs there are ─────────────────────────────────────────────────

/// The stamp in the name of a run's file, `bench-<stamp>.jsonl`.
pub open spec fn stamp_in(name: Seq<char>) -> Option<Seq<char>> {
    let rest = name.skip("bench-"@.len() as int);
    if starts_with(name, "bench-"@) && ends_with(rest, ".jsonl"@) {
        Some(rest.take(rest.len() - ".jsonl"@.len()))
    } else {
        None
    }
}

/// The stamp in a file's name.
pub fn stamp_of_name(name: &str) -> (r: Option<String>)
    ensures
        opt(r) == stamp_in(name@),
{
    let c = to_chars(name);
    if !has_prefix(c.as_slice(), "bench-") {
        return None;
    }
    let p = to_chars("bench-");
    let q = to_chars(".jsonl");
    let rest = slice_subrange(c.as_slice(), p.len(), c.len());
    assert(rest@ =~= name@.skip("bench-"@.len() as int));
    if !has_suffix(rest, ".jsonl") {
        return None;
    }
    let n: usize = rest.len();
    let stem = slice_subrange(rest, 0, n - q.len());
    assert(stem@ =~= rest@.take(rest@.len() - ".jsonl"@.len()));
    Some(from_chars(stem))
}

/// The stamps of the runs among some file names, in the order of the names.
pub open spec fn stamps_in(names: Seq<Seq<char>>) -> Seq<Seq<char>>
    decreases names.len(),
{
    if names.len() == 0 {
        Seq::empty()
    } else {
        match stamp_in(names.last()) {
            Some(s) => stamps_in(names.drop_last()).push(s),
            None => stamps_in(names.drop_last()),
        }
    }
}

/// A list in falling order.
pub open spec fn falling(v: Seq<Seq<char>>) -> bool {
    forall|i: int, j: int| 0 <= i < j < v.len() ==> !text_less(#[trigger] v[i], #[trigger] v[j])
}

/// Puts a text where it belongs in a falling list.
pub fn insert_falling(v: &mut Vec<String>, s: String)
    requires
        falling(strs(old(v)@)),
    ensures
        falling(strs(final(v)@)),
        strs(final(v)@).to_multiset() == strs(old(v)@).to_multiset().insert(s@),
{
    let ghost before = v@;
    let ghost view = strs(before);
    let mut i: usize = 0;
    while i < v.len() && !str_less(v[i].as_str(), s.as_str())
        invariant
            i <= v.len(),
            v@ == before,
            view == strs(before),
            forall|k: int| 0 <= k < i ==> !text_less(#[trigger] view[k], s@),
        decreases v.len() - i,
    {
        assert(view[i as int] == before[i as int]@);
        i += 1;
    }
    let ghost x = s@;
    v.insert(i, s);
    proof {
        broadcast use vstd::seq_lib::group_to_multiset_ensures;

        let now = strs(v@);
        assert(now =~= view.insert(i as int, x));
        assert forall|a: int, b: int| 0 <= a < b < now.len() implies !text_less(
            #[trigger] now[a],
            #[trigger] now[b],
        ) by {
            if b < i {
                assert(now[a] == view[a] && now[b] == view[b]);
            } else if b == i {
                assert(now[a] == view[a]);
            } else if a == i {
                assert(now[b] == view[b - 1]);
                assert(view[i as int] == before[i as int]@);
                assert(text_less(view[i as int], x));
                lemma_text_less_total(view[i as int], x);
                if text_less(x, view[b - 1]) {
                    lemma_text_less_transitive(view[i as int], x, view[b - 1]);
                }
            } else if a > i {
                assert(now[a] == view[a - 1] && now[b] == view[b - 1]);
            } else {
                assert(now[a] == view[a] && now[b] == view[b - 1]);
            }
        }
    }
}

/// The stamps of the runs among the names of a directory, newest first.
pub fn run_stamps(names: &Vec<String>) -> (r: Vec<String>)
    ensures
        falling(strs(r@)),
        strs(r@).to_multiset() == stamps_in(strs(names@)).to_multiset(),
{
    let mut out: Vec<String> = Vec::new();
    let mut i: usize = 0;
    assert(strs(out@) =~= stamps_in(strs(names@).take(0)));
    while i < names.len()
        invariant
            i <= names.len(),
            falling(strs(out@)),
            strs(out@).to_multiset() == stamps_in(strs(names@).take(i as int)).to_multiset(),
        decreases names.len() - i,
    {
        proof {
            broadcast use vstd::seq_lib::group_to_multiset_ensures;

            assert(strs(names@).take(i + 1).drop_last() =~= strs(names@).take(i as int));
            assert(strs(names@).take(i + 1).last() == names@[i as int]@);
        }
        if let Some(s) = stamp_of_name(names[i].as_str()) {
            insert_falling(&mut out, s);
        }
        i += 1;
    }
    assert(strs(names@).take(names@.len() as int) =~= strs(names@));
    out
}

// ── The tally of a live preset ───────────────────────────────────────────

/// The note on a prefill row: a cache hit means that it is not a cold one.
pub open spec fn cache_note(cache_seen: i64) -> Seq<char> {
    if cache_seen > 0 {
        dec_int(cache_seen as int) + " prompt tokens came from the cache"@
    } else {
        Seq::empty()
    }
}

pub fn prefill_note(cache_seen: i64) -> (r: String)
    ensures
        r@ == cache_note(cache_seen),
{
    let mut out: String = String::new();
    if cache_seen > 0 {
        push_int(&mut out, cache_seen);
        assert(out@ =~= dec_int(cache_seen as int));
        out.append(" prompt tokens came from the cache");
    }
    assert(out@ =~= cache_note(cache_seen));
    out
}

/// The share of what was drafted that was kept, in whole per cent: the quotient
/// of doubles `100 kept / drafted`, each step rounded, as it prints.
pub open spec fn percent_text(drafted: i64, kept: i64) -> Seq<char> {
    let size: nat = if kept < 0 {
        (-kept) as nat
    } else {
        kept as nat
    };
    let whole = dec(
        quotient_whole(nearest_double(100 * nearest_double(size)), nearest_double(drafted as nat)),
    );
    if kept < 0 {
        "-"@ + whole
    } else {
        whole
    }
}

/// The note on a decode row: how much of what was drafted was kept.
pub open spec fn draft_note(drafted: i64, kept: i64) -> Seq<char> {
    if drafted > 0 {
        "draft accepted "@ + percent_text(drafted, kept) + "%"@
    } else {
        Seq::empty()
    }
}

pub fn decode_note(drafted: i64, kept: i64) -> (r: String)
    ensures
        r@ == draft_note(drafted, kept),
{
    let mut out: String = String::new();
    if drafted > 0 {
        let size: u128 = if kept < 0 {
            (-(kept as i128)) as u128
        } else {
            kept as u128
        };
        let num: u128 = as_double(100 * as_double(size));
        let den: u128 = as_double(drafted as u128);
        let whole: u128 = whole_quotient(num, den);
        out.append("draft accepted ");
        if kept < 0 {
            out.append("-");
        }
        push_wide(&mut out, whole);
        out.append("%");
    }
    assert(out@ =~= draft_note(drafted, kept));
    out
}

/// Where all that was drafted was kept, a hundred per cent was; where none was, none.
/// Without a draft there is nothing to say of one, and without a cache hit nothing of
/// that.
pub proof fn law_notes(drafted: i64, n: i64)
    requires
        0 < drafted < 0x4000_0000_0000,
        n <= 0,
    ensures
        draft_note(drafted, drafted) == "draft accepted "@ + dec(100) + "%"@,
        draft_note(drafted, 0) == "draft accepted "@ + dec(0) + "%"@,
        draft_note(n, drafted).len() == 0,
        cache_note(n).len() == 0,
        cache_note(drafted) == dec_int(drafted as int) + " prompt tokens came from the cache"@,
{
    let d = drafted as nat;
    crate::rounding::law_small_numbers_are_doubles(d);
    crate::rounding::law_small_numbers_are_doubles(100 * d);
    crate::rounding::law_small_numbers_are_doubles(0);
    crate::rounding::law_whole_quotients(100, d);
    crate::rounding::law_whole_quotients(0, d);
    assert(0 * d == 0);
}

} // verus!
