//! What stands in a report and in the summary of a sweep.
use vstd::prelude::*;
use vstd::string::*;
use vstd::utf8::encode_utf8;
use crate::bench::{pairs, Mode, Plan};
use crate::machine::{adapter_row, adapter_rows, boot_rows, Adapter};
use crate::report::program_rows;
use crate::report::{
    caveat_list, engine_name, environment_text, mode_settings, prompt_text, report_text, result_line, result_lines,
    results_text, settings, table_row, table_text, wrapped_lines, RunMeta,
};
use crate::results::{baseline_of, PointView, RowView};
use crate::sha256::hex_digest;
use crate::stamp::{boot_moment, uptime_text};
use crate::sweep::{
    all_points, best_text, columns, failures, leg_row, leg_rows, primary_of, summary_head,
    summary_table, summary_tail, summary_text, Leg, Summary,
};
use crate::text::{contains, dec, dec_int, join, occurs_at, strs};

verus! {

// ── Pieces of a text ─────────────────────────────────────────────────────

proof fn lemma_left(a: Seq<char>, b: Seq<char>, p: Seq<char>)
    requires
        contains(a, p),
    ensures
        contains(a + b, p),
{
    let i = choose|i: int| occurs_at(a, p, i);
    assert((a + b).subrange(i, i + p.len()) =~= a.subrange(i, i + p.len()));
    assert(occurs_at(a + b, p, i));
}

proof fn lemma_right(a: Seq<char>, b: Seq<char>, p: Seq<char>)
    requires
        contains(b, p),
    ensures
        contains(a + b, p),
{
    let i = choose|i: int| occurs_at(b, p, i);
    let j = a.len() + i;
    assert((a + b).subrange(j, j + p.len()) =~= b.subrange(i, i + p.len()));
    assert(occurs_at(a + b, p, j));
}

proof fn lemma_itself(p: Seq<char>)
    ensures
        contains(p, p),
{
    assert(p.subrange(0, p.len() as int) =~= p);
    assert(occurs_at(p, p, 0));
}

proof fn lemma_row_in_table(v: Seq<(Seq<char>, Seq<char>)>, i: int)
    requires
        0 <= i < v.len(),
    ensures
        contains(table_text(v), "| "@ + v[i].0 + " | "@ + v[i].1 + " |\n"@),
    decreases v.len(),
{
    let init = v.drop_last();
    let row = table_row(v[i].0, v[i].1);
    if i < init.len() {
        assert(init[i] == v[i]);
        lemma_row_in_table(init, i);
        lemma_left(table_text(init), table_row(v.last().0, v.last().1), row);
    } else {
        lemma_itself(row);
        lemma_right(table_text(init), row, row);
    }
}

proof fn lemma_line_wrapped(v: Seq<Seq<char>>, before: Seq<char>, after: Seq<char>, i: int)
    requires
        0 <= i < v.len(),
    ensures
        contains(wrapped_lines(v, before, after), before + v[i] + after),
    decreases v.len(),
{
    let init = v.drop_last();
    let line = before + v[i] + after;
    if i < init.len() {
        assert(init[i] == v[i]);
        lemma_line_wrapped(init, before, after, i);
        lemma_left(wrapped_lines(init, before, after), before + v.last() + after, line);
    } else {
        lemma_itself(line);
        lemma_right(wrapped_lines(init, before, after), line, line);
    }
}

proof fn lemma_result_in_lines(v: Seq<RowView>, i: int)
    requires
        0 <= i < v.len(),
    ensures
        contains(result_lines(v), result_line(v[i])),
    decreases v.len(),
{
    let init = v.drop_last();
    let row = result_line(v[i]);
    if i < init.len() {
        assert(init[i] == v[i]);
        lemma_result_in_lines(init, i);
        lemma_left(result_lines(init), result_line(v.last()), row);
    } else {
        lemma_itself(row);
        lemma_right(result_lines(init), row, row);
    }
}

// ── The report ───────────────────────────────────────────────────────────

/// A report in its parts.
proof fn lemma_report_parts(plan: Plan, meta: RunMeta, table: Seq<RowView>, p: Seq<char>)
    ensures
        contains(table_text(settings(plan, meta)), p) ==> contains(report_text(plan, meta, table), p),
        contains(wrapped_lines(strs(meta.warnings@), "> **WARNING** "@, "\n\n"@), p) ==> contains(
            report_text(plan, meta, table),
            p,
        ),
        contains(results_text(table, baseline_of(strs(plan.presets@))), p) ==> contains(
            report_text(plan, meta, table),
            p,
        ),
        contains(prompt_text(plan), p) ==> contains(report_text(plan, meta, table), p),
        contains(environment_text(pairs(meta.env@)), p) ==> contains(report_text(plan, meta, table), p),
        contains(wrapped_lines(caveat_list(plan.mode), "- "@, "\n"@), p) ==> contains(
            report_text(plan, meta, table),
            p,
        ),
{
    let a = "# Benchmark: "@ + engine_name(plan.mode) + "\n\nGenerated "@ + meta.stamp@
        + ".\n\n| setting | value |\n|---|---|\n"@;
    let t = table_text(settings(plan, meta));
    let w = wrapped_lines(strs(meta.warnings@), "> **WARNING** "@, "\n\n"@);
    let r = results_text(table, baseline_of(strs(plan.presets@)));
    let q = prompt_text(plan);
    let e = environment_text(pairs(meta.env@));
    let c = wrapped_lines(caveat_list(plan.mode), "- "@, "\n"@);
    let s1 = a + t;
    let s2 = s1 + "\n"@;
    let s3 = s2 + w;
    let s4 = s3 + r;
    let s5 = s4 + q;
    let s6 = s5 + e;
    let s7 = s6 + "## Caveats\n\n"@;
    assert(report_text(plan, meta, table) == s7 + c);
    if contains(t, p) {
        lemma_right(a, t, p);
        lemma_left(s1, "\n"@, p);
        lemma_left(s2, w, p);
        lemma_left(s3, r, p);
        lemma_left(s4, q, p);
        lemma_left(s5, e, p);
        lemma_left(s6, "## Caveats\n\n"@, p);
        lemma_left(s7, c, p);
    }
    if contains(w, p) {
        lemma_right(s2, w, p);
        lemma_left(s3, r, p);
        lemma_left(s4, q, p);
        lemma_left(s5, e, p);
        lemma_left(s6, "## Caveats\n\n"@, p);
        lemma_left(s7, c, p);
    }
    if contains(r, p) {
        lemma_right(s3, r, p);
        lemma_left(s4, q, p);
        lemma_left(s5, e, p);
        lemma_left(s6, "## Caveats\n\n"@, p);
        lemma_left(s7, c, p);
    }
    if contains(q, p) {
        lemma_right(s4, q, p);
        lemma_left(s5, e, p);
        lemma_left(s6, "## Caveats\n\n"@, p);
        lemma_left(s7, c, p);
    }
    if contains(e, p) {
        lemma_right(s5, e, p);
        lemma_left(s6, "## Caveats\n\n"@, p);
        lemma_left(s7, c, p);
    }
    if contains(c, p) {
        lemma_right(s7, c, p);
    }
}

/// Every row of the results stands in the report, with all its cells.
pub proof fn law_report_shows_every_result(plan: Plan, meta: RunMeta, table: Seq<RowView>, i: int)
    requires
        0 <= i < table.len(),
    ensures
        contains(
            report_text(plan, meta, table),
            "| "@ + table[i].test + " | "@ + table[i].preset + " | "@ + table[i].mean + " | "@ + table[i].sd
                + " | "@ + dec_int(table[i].samples as int) + " | "@ + table[i].ratio + " | "@
                + table[i].note + " |\n"@,
        ),
{
    let p = result_line(table[i]);
    lemma_result_in_lines(table, i);
    let head =
        "## Results (tokens/s, mean +- sample stddev)\n\n| test | preset | t/s | +- | samples | vs "@
        + baseline_of(strs(plan.presets@)) + " | note |\n|---|---|---:|---:|---:|---:|---|\n"@;
    lemma_right(head, result_lines(table), p);
    lemma_left(head + result_lines(table), "\n"@, p);
    lemma_report_parts(plan, meta, table, p);
}

/// Whether a table of two columns has a row.
pub open spec fn has_row(text: Seq<char>, label: Seq<char>, value: Seq<char>) -> bool {
    contains(text, "| "@ + label + " | "@ + value + " |\n"@)
}

proof fn lemma_setting_shown(plan: Plan, meta: RunMeta, table: Seq<RowView>, i: int)
    requires
        0 <= i < settings(plan, meta).len(),
    ensures
        has_row(
            report_text(plan, meta, table),
            settings(plan, meta)[i].0,
            settings(plan, meta)[i].1,
        ),
{
    let v = settings(plan, meta);
    lemma_row_in_table(v, i);
    lemma_report_parts(plan, meta, table, "| "@ + v[i].0 + " | "@ + v[i].1 + " |\n"@);
}

/// A report says what was run: the presets, how often, and what its engine reads of the
/// plan.
pub proof fn law_report_shows_the_plan(plan: Plan, meta: RunMeta, table: Seq<RowView>)
    ensures
        ({
            let r = report_text(plan, meta, table);
            &&& has_row(r, "presets"@, join(strs(plan.presets@), ", "@))
            &&& has_row(r, "repetitions"@, dec_int(plan.reps as int))
            &&& plan.mode == Mode::Live ==> {
                &&& plan.temp matches Some(t) ==> has_row(r, "temperature"@, t@)
                &&& plan.temp is None ==> has_row(r, "temperature"@, "the preset's own"@)
                &&& has_row(r, "max output tokens"@, dec_int(plan.max_tokens as int))
                &&& has_row(
                    r,
                    "prompt sha256"@,
                    "`"@ + hex_digest(encode_utf8(plan.prompt@)) + "`"@,
                )
            }
            &&& plan.mode == Mode::Synthetic ==> {
                &&& has_row(r, "generated"@, dec_int(plan.n_gen as int))
            }
        }),
{
    let v = settings(plan, meta);
    lemma_setting_shown(plan, meta, table, 0);
    lemma_setting_shown(plan, meta, table, 1);
    let m = mode_settings(plan);
    if plan.mode == Mode::Live {
        assert(v[2] == m[0] && v[3] == m[1] && v[6] == m[4]);
        lemma_setting_shown(plan, meta, table, 2);
        lemma_setting_shown(plan, meta, table, 3);
        lemma_setting_shown(plan, meta, table, 6);
    } else {
        assert(v[3] == m[1]);
        lemma_setting_shown(plan, meta, table, 3);
    }
}

/// Every warning of a run stands in its report, and so does every row about the machine.
pub proof fn law_report_shows_warnings_and_machine(
    plan: Plan,
    meta: RunMeta,
    table: Seq<RowView>,
    i: int,
    k: int,
)
    requires
        0 <= i < meta.warnings@.len() || 0 <= k < meta.env@.len(),
    ensures
        0 <= i < meta.warnings@.len() ==> contains(
            report_text(plan, meta, table),
            "> **WARNING** "@ + meta.warnings@[i]@ + "\n\n"@,
        ),
        0 <= k < meta.env@.len() ==> has_row(
            report_text(plan, meta, table),
            meta.env@[k].0@,
            meta.env@[k].1@,
        ),
{
    if 0 <= i < meta.warnings@.len() {
        let w = strs(meta.warnings@);
        assert(w[i] == meta.warnings@[i]@);
        lemma_line_wrapped(w, "> **WARNING** "@, "\n\n"@, i);
        lemma_report_parts(plan, meta, table, "> **WARNING** "@ + w[i] + "\n\n"@);
    }
    if 0 <= k < meta.env@.len() {
        let env = pairs(meta.env@);
        assert(env[k] == (meta.env@[k].0@, meta.env@[k].1@));
        lemma_row_in_table(env, k);
        let p = "| "@ + env[k].0 + " | "@ + env[k].1 + " |\n"@;
        let head = "## Environment\n\n| what | value |\n|---|---|\n"@;
        lemma_right(head, table_text(env), p);
        lemma_left(head + table_text(env), "\n"@, p);
        lemma_report_parts(plan, meta, table, p);
    }
}

// ── The summary of a sweep ───────────────────────────────────────────────

proof fn lemma_leg_in_rows(
    legs: Seq<Leg>,
    ratios: Seq<Seq<char>>,
    primary: Seq<char>,
    labels: Seq<Seq<char>>,
    n: int,
    i: int,
)
    requires
        0 <= i < n,
    ensures
        contains(leg_rows(legs, ratios, primary, labels, n), leg_row(legs, ratios, primary, labels, i)),
    decreases n,
{
    let row = leg_row(legs, ratios, primary, labels, i);
    let a = leg_rows(legs, ratios, primary, labels, n - 1);
    if i < n - 1 {
        lemma_leg_in_rows(legs, ratios, primary, labels, n - 1, i);
        lemma_left(a, leg_row(legs, ratios, primary, labels, n - 1), row);
    } else {
        lemma_itself(row);
        lemma_right(a, row, row);
    }
}

/// Every leg has its row in the summary, and a leg that failed says so in it.
pub proof fn law_summary_shows_every_leg(s: Summary<'_>, winner: Option<int>, i: int)
    requires
        0 <= i < s.legs@.len(),
    ensures
        ({
            let legs = s.legs@;
            let primary = primary_of(s.opts.plan.mode, all_points(legs));
            let labels = columns(primary, all_points(legs));
            let row = leg_row(legs, strs(s.ratios@), primary, labels, i);
            &&& contains(summary_text(s, winner), row)
            &&& row.take((2 + legs[i].value@.len() + 2) as int) == "| "@ + legs[i].value@ + " |"@
            &&& legs[i].error@.len() > 0 ==> contains(row, "FAILED: "@ + legs[i].error@)
            &&& legs[i].report@.len() > 0 ==> contains(row, "`"@ + legs[i].report@ + "`"@)
        }),
{
    reveal_strlit("| ");
    reveal_strlit(" |");
    let legs = s.legs@;
    let primary = primary_of(s.opts.plan.mode, all_points(legs));
    let labels = columns(primary, all_points(legs));
    let ratios = strs(s.ratios@);
    let row = leg_row(legs, ratios, primary, labels, i);
    let n = legs.len() as int;
    lemma_leg_in_rows(legs, ratios, primary, labels, n, i);
    let rows = leg_rows(legs, ratios, primary, labels, n);
    let head = "| "@ + s.opts.key@ + " |"@ + crate::sweep::head_cells(labels, legs[0].value@)
        + " note | run |\n|---|"@ + crate::sweep::rule_cells(labels.len()) + "---|---|\n"@;
    lemma_right(head, rows, row);
    lemma_left(head + rows, "\n"@, row);
    let t = summary_table(s);
    assert(t == head + rows + "\n"@);
    let a = summary_head(s);
    let b = match winner {
        Some(w) => best_text(s.opts.key@, legs, ratios, primary, w),
        None => Seq::empty(),
    };
    let z = summary_tail(s.opts.plan.mode);
    lemma_right(a, t, row);
    lemma_left(a + t, b, row);
    lemma_left(a + t + b, z, row);
    assert(summary_text(s, winner) == a + t + b + z);
    assert(row.take((2 + legs[i].value@.len() + 2) as int) =~= "| "@ + legs[i].value@ + " |"@);
    let front = "| "@ + legs[i].value@ + " |"@ + crate::sweep::leg_cells(legs, ratios, primary, labels, i)
        + " "@;
    let note = crate::sweep::leg_note(legs[i], primary);
    let report = crate::sweep::leg_report(legs[i]);
    assert(row == front + note + " | "@ + report + " |\n"@);
    if legs[i].error@.len() > 0 {
        lemma_itself(note);
        lemma_right(front, note, note);
        lemma_left(front + note, " | "@, note);
        lemma_left(front + note + " | "@, report, note);
        lemma_left(front + note + " | "@ + report, " |\n"@, note);
    }
    if legs[i].report@.len() > 0 {
        lemma_itself(report);
        lemma_right(front + note + " | "@, report, report);
        lemma_left(front + note + " | "@ + report, " |\n"@, report);
    }
}

/// The winner is named in the summary, with its value.
pub proof fn law_summary_names_the_winner(s: Summary<'_>, i: int)
    requires
        0 <= i < s.legs@.len(),
    ensures
        contains(
            summary_text(s, Some(i)),
            "**Best: "@ + s.opts.key@ + " = "@ + s.legs@[i].value@ + "** at "@,
        ),
{
    let legs = s.legs@;
    let primary = primary_of(s.opts.plan.mode, all_points(legs));
    let ratios = strs(s.ratios@);
    let p = "**Best: "@ + s.opts.key@ + " = "@ + legs[i].value@ + "** at "@;
    let b = best_text(s.opts.key@, legs, ratios, primary, i);
    let rest = b.skip(p.len() as int);
    assert(b =~= p + rest);
    lemma_itself(p);
    lemma_left(p, rest, p);
    let a = summary_head(s) + summary_table(s);
    lemma_right(a, b, p);
    lemma_left(a + b, summary_tail(s.opts.plan.mode), p);
}

/// The failures are counted: there are none exactly where every leg went well, and one
/// more for each leg that did not.
pub proof fn law_failures_are_counted(legs: Seq<Leg>, leg: Leg)
    ensures
        leg.error@.len() > 0 ==> failures(legs.push(leg)) == failures(legs) + 1,
        leg.error@.len() == 0 ==> failures(legs.push(leg)) == failures(legs),
        failures(Seq::empty()) == 0,
{
    assert(legs.push(leg).drop_last() =~= legs);
}

/// The deciding test heads the columns, and every test that was measured has one.
pub proof fn law_columns(primary: Seq<char>, ps: Seq<PointView>)
    requires
        primary.len() > 0,
    ensures
        columns(primary, ps).len() > 0 && columns(primary, ps)[0] == primary,
        forall|i: int| 0 <= i < ps.len() ==> columns(primary, ps).contains((#[trigger] ps[i]).test),
    decreases ps.len(),
{
    if ps.len() > 0 {
        let init = ps.drop_last();
        law_columns(primary, init);
        let before = columns(primary, init);
        let now = columns(primary, ps);
        assert(ps[ps.len() - 1] == ps.last());
        assert forall|i: int| 0 <= i < ps.len() implies now.contains((#[trigger] ps[i]).test) by {
            if i < init.len() {
                assert(init[i] == ps[i]);
                let k = choose|k: int| 0 <= k < before.len() && before[k] == ps[i].test;
                assert(now[k] == ps[i].test);
            } else if !before.contains(ps.last().test) {
                assert(now[before.len() as int] == ps.last().test);
            }
        }
    }
}

// ── The machine ──────────────────────────────────────────────────────────

/// An uptime is told in its two largest units.
pub proof fn law_uptimes(d: nat, h: nat, m: nat, s: nat, secs: u64)
    requires
        h < 24,
        m < 60,
        s < 60,
        secs == 86_400 * d + 3600 * h + 60 * m + s,
    ensures
        d > 0 ==> uptime_text(secs) == "up "@ + dec(d) + " d "@ + dec(h) + " h"@,
        d == 0 && h > 0 ==> uptime_text(secs) == "up "@ + dec(h) + " h "@ + dec(m) + " m"@,
        d == 0 && h == 0 ==> uptime_text(secs) == "up "@ + dec(m) + " m"@,
{
    let x = secs as nat;
    assert(x / 86_400 == d);
    assert(x % 86_400 == 3600 * h + 60 * m + s);
    assert((3600 * h + 60 * m + s) / 3600 == h);
    assert(x % 3600 == 60 * m + s);
    assert((60 * m + s) / 60 == m);
}

/// The machine started so long ago as it has been up.
pub proof fn law_boot_moment(now: u64, up: u64)
    ensures
        up <= now ==> boot_moment(now, up) + up == now,
        up > now ==> boot_moment(now, up) == 0,
        boot_rows(now, None).len() == 0,
{
}

/// Every adapter but those of remote sessions has a row with its driver.
pub proof fn law_adapters_are_listed(v: Seq<Adapter>, a: Adapter)
    ensures
        !contains(a.desc@, "Remote Display"@) ==> adapter_rows(v.push(a)) == adapter_rows(v).push(
            adapter_row(a),
        ),
        contains(a.desc@, "Remote Display"@) ==> adapter_rows(v.push(a)) == adapter_rows(v),
        adapter_row(a).0 == "display driver ("@ + a.desc@ + ")"@,
        a.date@.len() == 0 ==> adapter_row(a).1 == a.version@,
        a.date@.len() > 0 ==> adapter_row(a).1 == a.version@ + ", dated "@ + a.date@,
{
    assert(v.push(a).drop_last() =~= v);
}

/// A report names the programs that measured, as far as they are known.
pub proof fn law_report_shows_the_programs(plan: Plan, meta: RunMeta, table: Seq<RowView>)
    ensures
        ({
            let r = report_text(plan, meta, table);
            &&& meta.server_version@.len() > 0 ==> has_row(r, "llama-server"@, meta.server_version@)
            &&& meta.bench_build matches Some(b) ==> has_row(
                r,
                "llama-bench"@,
                "build "@ + dec_int(b as int),
            )
            &&& meta.exe@.len() > 0 ==> has_row(r, "binary"@, "`"@ + meta.exe@ + "`"@)
        }),
{
    let v = settings(plan, meta);
    let m = mode_settings(plan);
    let p = program_rows(meta);
    let n = 2 + m.len() as int;
    assert(v.len() == n + p.len());
    assert forall|i: int| 0 <= i < p.len() implies v[n + i] == #[trigger] p[i] by {}
    let a: int = if meta.server_version@.len() > 0 {
        1
    } else {
        0
    };
    let b: int = if meta.bench_build is Some {
        1
    } else {
        0
    };
    if meta.server_version@.len() > 0 {
        assert(p[0] == ("llama-server"@, meta.server_version@));
        lemma_setting_shown(plan, meta, table, n);
    }
    if let Some(build) = meta.bench_build {
        assert(p[a] == ("llama-bench"@, "build "@ + dec_int(build as int)));
        lemma_setting_shown(plan, meta, table, n + a);
    }
    if meta.exe@.len() > 0 {
        assert(p[a + b] == ("binary"@, "`"@ + meta.exe@ + "`"@));
        lemma_setting_shown(plan, meta, table, n + a + b);
    }
}

} // verus!
