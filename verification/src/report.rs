//! The report of a benchmark, in markdown.
use vstd::prelude::*;
use vstd::string::*;
use vstd::utf8::encode_utf8;
use crate::bench::{
    elide, elided, numerals, pairs, prompt_info, render_int_list, Mode, Plan, REPORT_PROMPT_CHARS,
};
use crate::presets::literals;
use crate::results::{
    baseline_of, points_view, result_rows, result_table, rows, Point, Row, RowView,
};
use crate::sha256::hex_digest;
use crate::text::{
    dec, dec_int, int_str, join, join_strs, push_dec, push_int, strs, to_chars, trim, trimmed,
};

verus! {

/// Everything a report says that neither the plan nor the points do.
#[derive(Debug, Clone, PartialEq, Eq)]
pub struct RunMeta {
    /// When the run was.
    pub stamp: String,
    pub server_version: String,
    pub bench_build: Option<i64>,
    /// The path of the program that measured.
    pub exe: String,
    /// The machine, as label and value.
    pub env: Vec<(String, String)>,
    pub warnings: Vec<String>,
}

impl Default for RunMeta {
    fn default() -> (r: Self)
        ensures
            r.stamp@.len() == 0,
            r.server_version@.len() == 0,
            r.bench_build is None,
            r.exe@.len() == 0,
            r.env@.len() == 0,
            r.warnings@.len() == 0,
    {
        RunMeta {
            stamp: String::new(),
            server_version: String::new(),
            bench_build: None,
            exe: String::new(),
            env: Vec::new(),
            warnings: Vec::new(),
        }
    }
}

pub open spec fn engine_name(mode: Mode) -> Seq<char> {
    match mode {
        Mode::Live => "live (llama-server)"@,
        Mode::Synthetic => "synthetic (llama-bench)"@,
    }
}

pub fn engine(mode: Mode) -> (r: &'static str)
    ensures
        r@ == engine_name(mode),
{
    match mode {
        Mode::Live => "live (llama-server)",
        Mode::Synthetic => "synthetic (llama-bench)",
    }
}

/// What the numbers of a mode do not mean.
pub open spec fn caveat_list(mode: Mode) -> Seq<Seq<char>> {
    match mode {
        Mode::Live => seq![
            "Numbers include the preset's speculative drafter, chat template and sampler: they are production rates, not a hardware ceiling."@,
            "Every repetition asks for `cache_prompt: false`, so each prefill is cold. A non-zero `cache` note on a row means the server reused a prefix anyway and that row's prefill rate is not one."@,
            "Presets run grouped, all repetitions of one before the next, because switching preset makes the router load another model. A card that heats up over a long run therefore charges the drift to the LAST preset: re-run with the order reversed if a difference is small."@,
            "Temperature 0 makes two runs comparable, but it is not the sampling a preset ships with; with a drafter on, acceptance (and so throughput) depends on the content being generated."@,
        ],
        Mode::Synthetic => seq![
            "No speculative decoding: llama-bench cannot load the preset's drafter, so `tg` here is the unassisted rate and reads well below what the same preset does live with MTP on."@,
            "No sampling at all, hence no temperature and no prompt: the results are content-independent by construction, which is the point of this mode."@,
            "The mmproj, the chat template and every reasoning flag are ignored."@,
            "`pp` is batch prefill throughput, not time to first token."@,
            "`--ctx-size` is not honoured: llama-bench sizes the context as prompt + generated + depth."@,
            "llama-server must be stopped: benching alongside it does not fail cleanly, it spills into shared memory and reads as a backend regression."@,
        ],
    }
}

/// What the numbers of a mode do not mean.
pub fn caveats(mode: Mode) -> (r: Vec<&'static str>)
    ensures
        literals(r@) == caveat_list(mode),
{
    let mut out: Vec<&'static str> = Vec::new();
    match mode {
        Mode::Live => {
            out.push(
                "Numbers include the preset's speculative drafter, chat template and sampler: they are production rates, not a hardware ceiling.",
            );
            out.push(
                "Every repetition asks for `cache_prompt: false`, so each prefill is cold. A non-zero `cache` note on a row means the server reused a prefix anyway and that row's prefill rate is not one.",
            );
            out.push(
                "Presets run grouped, all repetitions of one before the next, because switching preset makes the router load another model. A card that heats up over a long run therefore charges the drift to the LAST preset: re-run with the order reversed if a difference is small.",
            );
            out.push(
                "Temperature 0 makes two runs comparable, but it is not the sampling a preset ships with; with a drafter on, acceptance (and so throughput) depends on the content being generated.",
            );
        },
        Mode::Synthetic => {
            out.push(
                "No speculative decoding: llama-bench cannot load the preset's drafter, so `tg` here is the unassisted rate and reads well below what the same preset does live with MTP on.",
            );
            out.push(
                "No sampling at all, hence no temperature and no prompt: the results are content-independent by construction, which is the point of this mode.",
            );
            out.push("The mmproj, the chat template and every reasoning flag are ignored.");
            out.push("`pp` is batch prefill throughput, not time to first token.");
            out.push(
                "`--ctx-size` is not honoured: llama-bench sizes the context as prompt + generated + depth.",
            );
            out.push(
                "llama-server must be stopped: benching alongside it does not fail cleanly, it spills into shared memory and reads as a backend regression.",
            );
        },
    }
    assert(literals(out@) =~= caveat_list(mode));
    out
}

// ── Pieces of markdown ───────────────────────────────────────────────────

/// A row of a table of two columns.
pub open spec fn table_row(label: Seq<char>, value: Seq<char>) -> Seq<char> {
    "| "@ + label + " | "@ + value + " |\n"@
}

/// The rows of a table of two columns.
pub open spec fn table_text(v: Seq<(Seq<char>, Seq<char>)>) -> Seq<char>
    decreases v.len(),
{
    if v.len() == 0 {
        Seq::empty()
    } else {
        table_text(v.drop_last()) + table_row(v.last().0, v.last().1)
    }
}

pub fn push_table(out: &mut String, v: &Vec<(String, String)>)
    ensures
        final(out)@ == old(out)@ + table_text(pairs(v@)),
{
    let ghost start = out@;
    let ghost ps = pairs(v@);
    let mut i: usize = 0;
    assert(start + table_text(ps.take(0)) =~= start);
    while i < v.len()
        invariant
            i <= v.len(),
            ps == pairs(v@),
            start == old(out)@,
            out@ == start + table_text(ps.take(i as int)),
        decreases v.len() - i,
    {
        let ghost was = out@;
        out.append("| ");
        out.append(v[i].0.as_str());
        out.append(" | ");
        out.append(v[i].1.as_str());
        out.append(" |\n");
        proof {
            assert(ps.take(i + 1).drop_last() =~= ps.take(i as int));
            assert(ps.take(i + 1).last() == (v@[i as int].0@, v@[i as int].1@));
            assert(out@ =~= was + table_row(v@[i as int].0@, v@[i as int].1@));
            assert(out@ =~= start + table_text(ps.take(i + 1)));
        }
        i += 1;
    }
    assert(ps.take(v@.len() as int) =~= ps);
}

/// A list of lines, each between two texts.
pub open spec fn wrapped_lines(v: Seq<Seq<char>>, before: Seq<char>, after: Seq<char>) -> Seq<char>
    decreases v.len(),
{
    if v.len() == 0 {
        Seq::empty()
    } else {
        wrapped_lines(v.drop_last(), before, after) + (before + v.last() + after)
    }
}

fn push_wrapped(out: &mut String, line: &str, before: &str, after: &str)
    ensures
        final(out)@ == old(out)@ + (before@ + line@ + after@),
{
    let ghost start = out@;
    out.append(before);
    out.append(line);
    out.append(after);
    assert(out@ =~= start + (before@ + line@ + after@));
}

pub fn push_warnings(out: &mut String, v: &Vec<String>)
    ensures
        final(out)@ == old(out)@ + wrapped_lines(strs(v@), "> **WARNING** "@, "\n\n"@),
{
    let ghost start = out@;
    let ghost ls = strs(v@);
    let ghost (b, a) = ("> **WARNING** "@, "\n\n"@);
    let mut i: usize = 0;
    assert(start + wrapped_lines(ls.take(0), b, a) =~= start);
    while i < v.len()
        invariant
            i <= v.len(),
            ls == strs(v@),
            start == old(out)@,
            b == "> **WARNING** "@,
            a == "\n\n"@,
            out@ == start + wrapped_lines(ls.take(i as int), b, a),
        decreases v.len() - i,
    {
        push_wrapped(out, v[i].as_str(), "> **WARNING** ", "\n\n");
        proof {
            assert(ls.take(i + 1).drop_last() =~= ls.take(i as int));
            assert(ls.take(i + 1).last() == v@[i as int]@);
            assert(out@ =~= start + wrapped_lines(ls.take(i + 1), b, a));
        }
        i += 1;
    }
    assert(ls.take(v@.len() as int) =~= ls);
}

/// A list with a dash before each line.
pub fn push_list(out: &mut String, v: &Vec<&'static str>)
    ensures
        final(out)@ == old(out)@ + wrapped_lines(literals(v@), "- "@, "\n"@),
{
    let ghost start = out@;
    let ghost ls = literals(v@);
    let ghost (b, a) = ("- "@, "\n"@);
    let mut i: usize = 0;
    assert(start + wrapped_lines(ls.take(0), b, a) =~= start);
    while i < v.len()
        invariant
            i <= v.len(),
            ls == literals(v@),
            start == old(out)@,
            b == "- "@,
            a == "\n"@,
            out@ == start + wrapped_lines(ls.take(i as int), b, a),
        decreases v.len() - i,
    {
        push_wrapped(out, v[i], "- ", "\n");
        proof {
            assert(ls.take(i + 1).drop_last() =~= ls.take(i as int));
            assert(ls.take(i + 1).last() == v@[i as int]@);
            assert(out@ =~= start + wrapped_lines(ls.take(i + 1), b, a));
        }
        i += 1;
    }
    assert(ls.take(v@.len() as int) =~= ls);
}

// ── The report ───────────────────────────────────────────────────────────

/// The temperature as a reader sees it.
pub open spec fn temperature_text(temp: Option<String>) -> Seq<char> {
    match temp {
        Some(t) => t@,
        None => "the preset's own"@,
    }
}

pub fn temperature(temp: &Option<String>) -> (r: String)
    ensures
        r@ == temperature_text(*temp),
{
    match temp {
        Some(t) => t.clone(),
        None => "the preset's own".to_owned(),
    }
}

/// What identifies the prompt of a run.
pub open spec fn prompt_rows(plan: Plan) -> Seq<(Seq<char>, Seq<char>)> {
    seq![
        (
            "prompt"@,
            match plan.prompt_file {
                Some(p) => "`"@ + p@ + "`"@,
                None => "given inline (`--prompt`)"@,
            },
        ),
        (
            "prompt size"@,
            dec(plan.prompt@.len()) + " chars, "@ + dec(encode_utf8(plan.prompt@).len())
                + " bytes"@,
        ),
        ("prompt sha256"@, "`"@ + hex_digest(encode_utf8(plan.prompt@)) + "`"@),
    ]
}

/// The rows that identify the prompt of a run: the file, the size, the digest.
pub fn prompt_report_rows(plan: &Plan) -> (r: Vec<(String, String)>)
    ensures
        pairs(r@) == prompt_rows(*plan),
{
    let info = prompt_info(plan.prompt.as_str());
    let mut out: Vec<(String, String)> = Vec::new();
    let place = match &plan.prompt_file {
        Some(p) => {
            let mut s: String = "`".to_owned();
            s.append(p.as_str());
            s.append("`");
            s
        },
        None => "given inline (`--prompt`)".to_owned(),
    };
    out.push(("prompt".to_owned(), place));
    let mut size: String = String::new();
    push_dec(&mut size, info.chars as u64);
    assert(size@ =~= dec(plan.prompt@.len()));
    size.append(" chars, ");
    push_dec(&mut size, info.bytes as u64);
    size.append(" bytes");
    out.push(("prompt size".to_owned(), size));
    let mut digest: String = "`".to_owned();
    digest.append(info.sha256.as_str());
    digest.append("`");
    out.push(("prompt sha256".to_owned(), digest));
    assert(pairs(out@) =~= prompt_rows(*plan));
    out
}

/// The settings that a mode reads.
pub open spec fn mode_settings(plan: Plan) -> Seq<(Seq<char>, Seq<char>)> {
    match plan.mode {
        Mode::Live => seq![
            ("temperature"@, temperature_text(plan.temp)),
            ("max output tokens"@, dec_int(plan.max_tokens as int)),
        ] + prompt_rows(plan),
        Mode::Synthetic => seq![
            ("prompt lengths"@, join(numerals(plan.prompt_lens@), ","@)),
            ("generated"@, dec_int(plan.n_gen as int)),
            ("depths"@, join(numerals(plan.depths@), ","@)),
        ],
    }
}

/// The programs that measured, as far as they are known.
pub open spec fn program_rows(meta: RunMeta) -> Seq<(Seq<char>, Seq<char>)> {
    (if meta.server_version@.len() > 0 {
        seq![("llama-server"@, meta.server_version@)]
    } else {
        Seq::empty()
    }) + (match meta.bench_build {
        Some(b) => seq![("llama-bench"@, "build "@ + dec_int(b as int))],
        None => Seq::empty(),
    }) + (if meta.exe@.len() > 0 {
        seq![("binary"@, "`"@ + meta.exe@ + "`"@)]
    } else {
        Seq::empty()
    })
}

/// All settings of a run.
pub open spec fn settings(plan: Plan, meta: RunMeta) -> Seq<(Seq<char>, Seq<char>)> {
    seq![
        ("presets"@, join(strs(plan.presets@), ", "@)),
        ("repetitions"@, dec_int(plan.reps as int)),
    ] + mode_settings(plan) + program_rows(meta)
}

fn settings_of(plan: &Plan, meta: &RunMeta) -> (r: Vec<(String, String)>)
    ensures
        pairs(r@) == settings(*plan, *meta),
{
    let mut out: Vec<(String, String)> = Vec::new();
    out.push(("presets".to_owned(), join_strs(&plan.presets, ", ")));
    out.push(("repetitions".to_owned(), int_str(plan.reps as i64)));
    match plan.mode {
        Mode::Live => {
            out.push(("temperature".to_owned(), temperature(&plan.temp)));
            out.push(("max output tokens".to_owned(), int_str(plan.max_tokens as i64)));
            let mut more = prompt_report_rows(plan);
            let ghost before = out@;
            let ghost added = more@;
            out.append(&mut more);
            assert(pairs(out@) =~= pairs(before) + pairs(added));
        },
        Mode::Synthetic => {
            out.push(
                ("prompt lengths".to_owned(), render_int_list(plan.prompt_lens.as_slice())),
            );
            out.push(("generated".to_owned(), int_str(plan.n_gen as i64)));
            out.push(("depths".to_owned(), render_int_list(plan.depths.as_slice())));
        },
    }
    assert(pairs(out@) =~= seq![
        ("presets"@, join(strs(plan.presets@), ", "@)),
        ("repetitions"@, dec_int(plan.reps as int)),
    ] + mode_settings(*plan));
    let ghost head = pairs(out@);
    if !meta.server_version.as_str().is_empty() {
        out.push(("llama-server".to_owned(), meta.server_version.clone()));
    }
    if let Some(b) = meta.bench_build {
        let mut s: String = "build ".to_owned();
        push_int(&mut s, b);
        out.push(("llama-bench".to_owned(), s));
    }
    if !meta.exe.as_str().is_empty() {
        let mut s: String = "`".to_owned();
        s.append(meta.exe.as_str());
        s.append("`");
        out.push(("binary".to_owned(), s));
    }
    assert(pairs(out@) =~= head + program_rows(*meta));
    out
}

/// A row of the results.
pub open spec fn result_line(r: RowView) -> Seq<char> {
    "| "@ + r.test + " | "@ + r.preset + " | "@ + r.mean + " | "@ + r.sd + " | "@ + dec_int(
        r.samples as int,
    ) + " | "@ + r.ratio + " | "@ + r.note + " |\n"@
}

pub open spec fn result_lines(v: Seq<RowView>) -> Seq<char>
    decreases v.len(),
{
    if v.len() == 0 {
        Seq::empty()
    } else {
        result_lines(v.drop_last()) + result_line(v.last())
    }
}

/// The results: the table, or a sentence where there is none.
pub open spec fn results_text(v: Seq<RowView>, baseline: Seq<char>) -> Seq<char> {
    if v.len() == 0 {
        "## Results (tokens/s, mean +- sample stddev)\n\nNo results were collected.\n\n"@
    } else {
        "## Results (tokens/s, mean +- sample stddev)\n\n| test | preset | t/s | +- | samples | vs "@
            + baseline + " | note |\n|---|---|---:|---:|---:|---:|---|\n"@ + result_lines(v) + "\n"@
    }
}

fn push_result_line(out: &mut String, r: &Row)
    ensures
        final(out)@ == old(out)@ + result_line(r@),
{
    let mut line: String = "| ".to_owned();
    line.append(r.test.as_str());
    line.append(" | ");
    line.append(r.preset.as_str());
    line.append(" | ");
    line.append(r.mean.as_str());
    line.append(" | ");
    line.append(r.sd.as_str());
    line.append(" | ");
    push_int(&mut line, r.samples as i64);
    line.append(" | ");
    line.append(r.ratio.as_str());
    line.append(" | ");
    line.append(r.note.as_str());
    line.append(" |\n");
    out.append(line.as_str());
}

fn push_results(out: &mut String, v: &Vec<Row>, baseline: &str)
    ensures
        final(out)@ == old(out)@ + results_text(result_rows(v@), baseline@),
{
    let ghost start = out@;
    let ghost rs = result_rows(v@);
    assert(rs.len() == v@.len());
    if v.len() == 0 {
        out.append("## Results (tokens/s, mean +- sample stddev)\n\nNo results were collected.\n\n");
        return;
    }
    let mut text: String =
        "## Results (tokens/s, mean +- sample stddev)\n\n| test | preset | t/s | +- | samples | vs ".to_owned();
    text.append(baseline);
    text.append(" | note |\n|---|---|---:|---:|---:|---:|---|\n");
    let ghost head = text@;
    let mut i: usize = 0;
    assert(head + result_lines(rs.take(0)) =~= head);
    while i < v.len()
        invariant
            i <= v.len(),
            rs == result_rows(v@),
            text@ == head + result_lines(rs.take(i as int)),
        decreases v.len() - i,
    {
        push_result_line(&mut text, &v[i]);
        proof {
            assert(rs.take(i + 1).drop_last() =~= rs.take(i as int));
            assert(rs.take(i + 1).last() == v@[i as int]@);
            assert(text@ =~= head + result_lines(rs.take(i + 1)));
        }
        i += 1;
    }
    assert(rs.take(v@.len() as int) =~= rs);
    text.append("\n");
    out.append(text.as_str());
}

/// The prompt of a run: its text, as far as the report embeds it.
pub open spec fn prompt_text(plan: Plan) -> Seq<char> {
    match plan.mode {
        Mode::Live => "## Prompt\n\n```\n"@ + elided(trim(plan.prompt@), REPORT_PROMPT_CHARS as nat)
            + "\n```\n\nThe sha256 above is of the prompt as SENT (a leading BOM dropped, CRLF folded to LF), not of the file's bytes, so it will not match `Get-FileHash` on a CRLF file. Two runs whose digests agree measured the same prompt.\n\n"@,
        Mode::Synthetic => "## Prompt\n\nThis mode takes no prompt: `-p` is a token count and the tool never samples.\n\n"@,
    }
}

fn prompt_part(plan: &Plan) -> (r: String)
    ensures
        r@ == prompt_text(*plan),
{
    match plan.mode {
        Mode::Live => {
            let c = to_chars(plan.prompt.as_str());
            let shown = elide(trimmed(c.as_slice()), REPORT_PROMPT_CHARS);
            let mut out: String = "## Prompt\n\n```\n".to_owned();
            out.append(shown.as_str());
            out.append(
                "\n```\n\nThe sha256 above is of the prompt as SENT (a leading BOM dropped, CRLF folded to LF), not of the file's bytes, so it will not match `Get-FileHash` on a CRLF file. Two runs whose digests agree measured the same prompt.\n\n",
            );
            out
        },
        Mode::Synthetic => "## Prompt\n\nThis mode takes no prompt: `-p` is a token count and the tool never samples.\n\n".to_owned(),
    }
}

/// The machine, where anything is known of it.
pub open spec fn environment_text(env: Seq<(Seq<char>, Seq<char>)>) -> Seq<char> {
    if env.len() == 0 {
        Seq::empty()
    } else {
        "## Environment\n\n| what | value |\n|---|---|\n"@ + table_text(env) + "\n"@
    }
}

/// The whole report: what was run, what to beware of, and only then the numbers.
pub open spec fn report_text(
    plan: Plan,
    meta: RunMeta,
    table: Seq<RowView>,
) -> Seq<char> {
    "# Benchmark: "@ + engine_name(plan.mode) + "\n\nGenerated "@ + meta.stamp@
        + ".\n\n| setting | value |\n|---|---|\n"@ + table_text(settings(plan, meta)) + "\n"@
        + wrapped_lines(strs(meta.warnings@), "> **WARNING** "@, "\n\n"@) + results_text(
        table,
        baseline_of(strs(plan.presets@)),
    ) + prompt_text(plan) + environment_text(pairs(meta.env@)) + "## Caveats\n\n"@ + wrapped_lines(
        caveat_list(plan.mode),
        "- "@,
        "\n"@,
    )
}

/// The report of a run. `ratios` is as for [`rows`].
pub fn render_report(plan: &Plan, points: &[Point], ratios: &[String], meta: &RunMeta) -> (r: String)
    requires
        ratios@.len() == points@.len(),
    ensures
        r@ == report_text(
            *plan,
            *meta,
            result_table(points_view(points@), strs(plan.presets@), strs(ratios@)),
        ),
{
    let mut md: String = "# Benchmark: ".to_owned();
    md.append(engine(plan.mode));
    md.append("\n\nGenerated ");
    md.append(meta.stamp.as_str());
    md.append(".\n\n| setting | value |\n|---|---|\n");
    let rows_of_settings = settings_of(plan, meta);
    push_table(&mut md, &rows_of_settings);
    md.append("\n");
    push_warnings(&mut md, &meta.warnings);
    let table = rows(points, plan.presets.as_slice(), ratios);
    let baseline: String = if plan.presets.len() > 0 {
        plan.presets[0].clone()
    } else {
        String::new()
    };
    proof {
        if plan.presets@.len() > 0 {
            assert(strs(plan.presets@)[0] == plan.presets@[0]@);
        } else {
            assert(baseline@ =~= baseline_of(strs(plan.presets@)));
        }
    }
    push_results(&mut md, &table, baseline.as_str());
    let prompt = prompt_part(plan);
    md.append(prompt.as_str());
    let ghost before_env = md@;
    assert(pairs(meta.env@).len() == meta.env@.len());
    if meta.env.len() > 0 {
        let mut env: String = "## Environment\n\n| what | value |\n|---|---|\n".to_owned();
        push_table(&mut env, &meta.env);
        env.append("\n");
        md.append(env.as_str());
    }
    assert(md@ =~= before_env + environment_text(pairs(meta.env@)));
    md.append("## Caveats\n\n");
    let cs = caveats(plan.mode);
    push_list(&mut md, &cs);
    md
}

} // verus!
