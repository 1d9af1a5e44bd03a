//! What a plan asks for, and what its requests and arguments say of it.
use vstd::prelude::*;
use vstd::string::*;
use crate::bench::{
    bench_argv, chat_request, decimal_json, effective_split, elided, flag_if, flash_attn_word,
    name_of, normalized, number_flag, numbers_in, numerals, pairs, placement_flags, plan_problem,
    preset_flags, reseparated, shadowed, test_label, timings_are, unknown_all, unknown_of,
    unknown_warning, workload, Mode, Plan, SweepView, Timings,
};
use crate::devices::Device;
use crate::json::{int_json, lemma_member_at_is, member, JsonView};
use crate::presets::Preset;
use crate::server_cfg::ServerConfig;
use crate::sweep_laws::lemma_dec_int_shape;
use crate::text::{
    dec_int, entries, find, is_entry, join, lemma_entries, lemma_entries_join, lemma_find_from,
    lemma_parse_dec_int, lower_all, occurs_at, replace_all, trim,
};

verus! {

// ── The prompt ───────────────────────────────────────────────────────────

/// A prompt with LF line ends and without a byte-order mark is sent as it is.
pub proof fn law_plain_prompt_stays(raw: Seq<char>)
    requires
        raw.len() > 0 ==> raw[0] != '\u{feff}',
        !raw.contains('\r'),
    ensures
        normalized(raw) == raw,
{
    reveal_strlit("\r\n");
    lemma_find_from(raw, "\r\n"@, 0);
    if let Some(i) = find(raw, "\r\n"@) {
        assert(occurs_at(raw, "\r\n"@, i));
        assert(raw.subrange(i, i + 2)[0] == raw[i]);
        assert(raw.contains(raw[i]));
    }
}

/// A byte-order mark in front of a prompt is not part of it.
pub proof fn law_mark_is_dropped(raw: Seq<char>)
    requires
        raw.len() > 0 ==> raw[0] != '\u{feff}',
    ensures
        normalized(seq!['\u{feff}'] + raw) == normalized(raw),
{
    assert((seq!['\u{feff}'] + raw).skip(1) =~= raw);
}

/// A line that ends in CR LF is sent with LF alone, and so are those behind it.
pub proof fn law_line_ends_are_lf(line: Seq<char>, rest: Seq<char>)
    requires
        line.len() > 0 ==> line[0] != '\u{feff}',
        !line.contains('\r'),
        rest.len() > 0 ==> rest[0] != '\u{feff}',
    ensures
        normalized(line + seq!['\r', '\n'] + rest) == line + seq!['\n'] + normalized(rest),
{
    let br = "\r\n"@;
    let lf = "\n"@;
    let s = line + seq!['\r', '\n'] + rest;
    let at = line.len() as int;
    lemma_first_break(line, rest);
    assert(s.take(at) =~= line);
    assert(s.skip(at + br.len()) =~= rest);
    assert(replace_all(s, br, lf) == line + lf + replace_all(rest, br, lf));
    assert(s[0] == if at > 0 {
        line[0]
    } else {
        '\r'
    });
}

proof fn lemma_first_break(line: Seq<char>, rest: Seq<char>)
    requires
        !line.contains('\r'),
    ensures
        find(line + seq!['\r', '\n'] + rest, "\r\n"@) == Some(line.len() as int),
        "\r\n"@.len() == 2,
        "\n"@ == seq!['\n'],
{
    reveal_strlit("\r\n");
    reveal_strlit("\n");
    let br = "\r\n"@;
    let s = line + seq!['\r', '\n'] + rest;
    let at = line.len() as int;
    assert("\n"@ =~= seq!['\n']);
    assert(s.subrange(at, at + 2) =~= br);
    assert(occurs_at(s, br, at));
    lemma_find_from(s, br, 0);
    let i = find(s, br)->0;
    assert(find(s, br) is Some);
    if i < at {
        assert(s[i] == line[i]);
        assert(line.contains(line[i]));
        assert(occurs_at(s, br, i));
        assert(s.subrange(i, i + 2)[0] == s[i]);
    }
}

/// A text that is cut begins with what it began with, as far as it is shown.
pub proof fn law_cut_keeps_the_front(text: Seq<char>, cap: nat)
    ensures
        text.len() <= cap ==> elided(text, cap) == text,
        text.len() > cap ==> elided(text, cap).len() > cap && elided(text, cap).take(cap as int)
            == text.take(cap as int),
{
    reveal_strlit("\n[truncated: ");
    if text.len() > cap {
        assert(elided(text, cap).take(cap as int) =~= text.take(cap as int));
    }
}

// ── The plan ─────────────────────────────────────────────────────────────

/// A list of numbers reads back as it was written.
pub proof fn law_int_list_reads_back(v: Seq<i32>)
    ensures
        numbers_in(entries(join(numerals(v), ","@), ',')) == v,
{
    reveal_strlit(",");
    assert(","@ =~= seq![',']);
    let ns = numerals(v);
    assert forall|i: int| 0 <= i < ns.len() implies is_entry(#[trigger] ns[i], ',') by {
        lemma_dec_int_shape(v[i] as int);
        assert(ns[i] == dec_int(v[i] as int));
    }
    lemma_entries_join(ns, ',');
    lemma_numbers(v);
}

proof fn lemma_numbers(v: Seq<i32>)
    ensures
        numbers_in(numerals(v)) == v,
    decreases v.len(),
{
    let ns = numerals(v);
    if v.len() > 0 {
        let init = v.drop_last();
        assert(ns.drop_last() =~= numerals(init));
        lemma_numbers(init);
        lemma_parse_dec_int(v.last() as int, i32::MIN as int, i32::MAX as int);
        assert(ns.last() == dec_int(v.last() as int));
        assert(init.push(v.last()) =~= v);
    } else {
        assert(numbers_in(ns) =~= v);
    }
}

/// A plan can run exactly where it names a preset and a repetition, and has something
/// to do: a live one a prompt and room for an answer, a synthetic one a prompt length
/// or a length to generate.
pub proof fn law_plan_that_runs(plan: Plan)
    ensures
        plan_problem(plan) is None <==> {
            &&& plan.presets@.len() >= 1
            &&& plan.reps >= 1
            &&& plan.mode == Mode::Live ==> trim(plan.prompt@).len() >= 1 && plan.max_tokens >= 1
            &&& plan.mode == Mode::Synthetic ==> plan.prompt_lens@.len() >= 1 || plan.n_gen >= 1
        },
        plan.mode == Mode::Synthetic && plan_problem(plan) is None ==> workload(plan).len() >= 1,
{
}

/// Whether a flag stands in a list with a value behind it.
pub open spec fn has_pair(a: Seq<Seq<char>>, flag: Seq<char>, value: Seq<char>) -> bool {
    exists|i: int| 0 <= i < a.len() - 1 && #[trigger] a[i] == flag && a[i + 1] == value
}

/// The two halves of a workload: prompts of the lengths with nothing generated, and so
/// much generated at the depths without a prompt. The depths are no business of the
/// first. A half with nothing to do is left out.
pub proof fn law_halves(plan: Plan)
    ensures
        ({
            let w = workload(plan);
            let lens = plan.prompt_lens@.len() > 0;
            let gen = plan.n_gen > 0;
            &&& w.len() == (if lens {
                1int
            } else {
                0
            }) + (if gen {
                1int
            } else {
                0
            })
            &&& lens ==> w[0].name == "prefill"@ && has_pair(
                w[0].args,
                "-p"@,
                join(numerals(plan.prompt_lens@), ","@),
            ) && has_pair(w[0].args, "-n"@, "0"@) && !w[0].args.contains("-d"@)
            &&& gen ==> w.last().name == "decode"@ && has_pair(w.last().args, "-p"@, "0"@) && has_pair(
                w.last().args,
                "-n"@,
                dec_int(plan.n_gen as int),
            )
            &&& gen && plan.depths@.len() > 0 ==> has_pair(
                w.last().args,
                "-d"@,
                join(numerals(plan.depths@), ","@),
            )
        }),
{
    reveal_strlit("-d");
    reveal_strlit("-p");
    reveal_strlit("-n");
    reveal_strlit("0");
    let w = workload(plan);
    if plan.prompt_lens@.len() > 0 {
        let a = w[0].args;
        assert(a[0] == "-p"@ && a[2] == "-n"@ && a[3] == "0"@);
        assert("-p"@[1] == 'p' && "-n"@[1] == 'n' && "-d"@[1] == 'd' && "0"@[0] == '0');
        assert(a[1] != "-d"@) by {
            lemma_list_is_no_flag(plan.prompt_lens@);
        }
    }
    if plan.n_gen > 0 {
        let a = w.last().args;
        assert(a[0] == "-p"@ && a[1] == "0"@ && a[2] == "-n"@ && a[3] == dec_int(plan.n_gen as int));
        if plan.depths@.len() > 0 {
            assert(a[4] == "-d"@ && a[5] == join(numerals(plan.depths@), ","@));
        }
    }
}

proof fn lemma_list_is_no_flag(v: Seq<i32>)
    requires
        v.len() > 0,
    ensures
        join(numerals(v), ","@) != "-d"@,
{
    reveal_strlit("-d");
    let s = join(numerals(v), ","@);
    lemma_join_first(numerals(v), ","@);
    let d = numerals(v)[0];
    lemma_dec_int_shape(v[0] as int);
    assert(d == dec_int(v[0] as int));
    if s == "-d"@ {
        if d.len() >= 2 {
            assert(s[1] == d[1]);
        } else {
            assert(s[0] == d[0]);
            lemma_minus_is_longer(v[0] as int);
        }
    }
}

proof fn lemma_minus_is_longer(n: int)
    ensures
        dec_int(n)[0] == '-' ==> dec_int(n).len() >= 2,
{
    reveal_strlit("-");
    if n < 0 {
        crate::text::lemma_dec((-n) as nat);
    } else {
        crate::text::lemma_dec(n as nat);
        assert(crate::text::is_digit(dec_int(n)[0]));
    }
}

proof fn lemma_join_first(v: Seq<Seq<char>>, sep: Seq<char>)
    requires
        v.len() > 0,
    ensures
        join(v, sep).len() >= v[0].len(),
        forall|i: int| 0 <= i < v[0].len() ==> #[trigger] join(v, sep)[i] == v[0][i],
    decreases v.len(),
{
    if v.len() > 1 {
        let init = v.drop_last();
        lemma_join_first(init, sep);
        let a = join(init, sep);
        assert(init[0] == v[0]);
        assert(join(v, sep) == a + sep + v.last());
        assert forall|i: int| 0 <= i < v[0].len() implies #[trigger] join(v, sep)[i] == v[0][i] by {
            assert(a[i] == v[0][i]);
        }
    }
}

// ── Arguments ────────────────────────────────────────────────────────────

pub proof fn lemma_pair_left(a: Seq<Seq<char>>, b: Seq<Seq<char>>, flag: Seq<char>, value: Seq<char>)
    requires
        has_pair(a, flag, value),
    ensures
        has_pair(a + b, flag, value),
{
    let i = choose|i: int| 0 <= i < a.len() - 1 && #[trigger] a[i] == flag && a[i + 1] == value;
    assert((a + b)[i] == a[i] && (a + b)[i + 1] == a[i + 1]);
}

pub proof fn lemma_pair_right(a: Seq<Seq<char>>, b: Seq<Seq<char>>, flag: Seq<char>, value: Seq<char>)
    requires
        has_pair(b, flag, value),
    ensures
        has_pair(a + b, flag, value),
{
    let i = choose|i: int| 0 <= i < b.len() - 1 && #[trigger] b[i] == flag && b[i + 1] == value;
    assert((a + b)[a.len() + i] == b[i] && (a + b)[a.len() + i + 1] == b[i + 1]);
}

pub proof fn lemma_pair(flag: Seq<char>, value: Seq<char>)
    ensures
        has_pair(seq![flag, value], flag, value),
{
    let a = seq![flag, value];
    assert(a[0] == flag && a[1] == value);
}

/// The settings of a preset reach llama-bench: each under its flag.
pub proof fn law_preset_settings_are_passed(p: Preset)
    ensures
        p.n_gpu_layers matches Some(n) ==> has_pair(preset_flags(p), "-ngl"@, dec_int(n as int)),
        p.n_cpu_moe matches Some(n) ==> has_pair(preset_flags(p), "-ncmoe"@, dec_int(n as int)),
        p.cache_type_k@.len() > 0 ==> has_pair(preset_flags(p), "-ctk"@, p.cache_type_k@),
        p.cache_type_v@.len() > 0 ==> has_pair(preset_flags(p), "-ctv"@, p.cache_type_v@),
        p.flash_attn == Some(true) ==> has_pair(preset_flags(p), "-fa"@, "on"@),
        p.flash_attn == Some(false) ==> has_pair(preset_flags(p), "-fa"@, "off"@),
        p.batch_size matches Some(n) ==> has_pair(preset_flags(p), "-b"@, dec_int(n as int)),
        p.ubatch_size matches Some(n) ==> has_pair(preset_flags(p), "-ub"@, dec_int(n as int)),
{
    let ngl = number_flag("-ngl"@, p.n_gpu_layers);
    let moe = number_flag("-ncmoe"@, p.n_cpu_moe);
    let k = flag_if(p.cache_type_k@.len() > 0, "-ctk"@, p.cache_type_k@);
    let v = flag_if(p.cache_type_v@.len() > 0, "-ctv"@, p.cache_type_v@);
    let word = if p.flash_attn == Some(true) {
        "on"@
    } else {
        "off"@
    };
    let fa = flag_if(p.flash_attn is Some, "-fa"@, word);
    let b = number_flag("-b"@, p.batch_size);
    let u = number_flag("-ub"@, p.ubatch_size);
    let s1 = ngl + moe;
    let s2 = s1 + k;
    let s3 = s2 + v;
    let s4 = s3 + fa;
    let s5 = s4 + b;
    let all = s5 + u;
    assert(preset_flags(p) == all);
    if let Some(n) = p.n_gpu_layers {
        let (f, x) = ("-ngl"@, dec_int(n as int));
        lemma_pair(f, x);
        lemma_pair_left(ngl, moe, f, x);
        lemma_pair_left(s1, k, f, x);
        lemma_pair_left(s2, v, f, x);
        lemma_pair_left(s3, fa, f, x);
        lemma_pair_left(s4, b, f, x);
        lemma_pair_left(s5, u, f, x);
    }
    if let Some(n) = p.n_cpu_moe {
        let (f, x) = ("-ncmoe"@, dec_int(n as int));
        lemma_pair(f, x);
        lemma_pair_right(ngl, moe, f, x);
        lemma_pair_left(s1, k, f, x);
        lemma_pair_left(s2, v, f, x);
        lemma_pair_left(s3, fa, f, x);
        lemma_pair_left(s4, b, f, x);
        lemma_pair_left(s5, u, f, x);
    }
    if p.cache_type_k@.len() > 0 {
        let (f, x) = ("-ctk"@, p.cache_type_k@);
        lemma_pair(f, x);
        lemma_pair_right(s1, k, f, x);
        lemma_pair_left(s2, v, f, x);
        lemma_pair_left(s3, fa, f, x);
        lemma_pair_left(s4, b, f, x);
        lemma_pair_left(s5, u, f, x);
    }
    if p.cache_type_v@.len() > 0 {
        let (f, x) = ("-ctv"@, p.cache_type_v@);
        lemma_pair(f, x);
        lemma_pair_right(s2, v, f, x);
        lemma_pair_left(s3, fa, f, x);
        lemma_pair_left(s4, b, f, x);
        lemma_pair_left(s5, u, f, x);
    }
    if p.flash_attn is Some {
        lemma_pair("-fa"@, word);
        lemma_pair_right(s3, fa, "-fa"@, word);
        lemma_pair_left(s4, b, "-fa"@, word);
        lemma_pair_left(s5, u, "-fa"@, word);
    }
    if let Some(n) = p.batch_size {
        let (f, x) = ("-b"@, dec_int(n as int));
        lemma_pair(f, x);
        lemma_pair_right(s4, b, f, x);
        lemma_pair_left(s5, u, f, x);
    }
    if let Some(n) = p.ubatch_size {
        let (f, x) = ("-ub"@, dec_int(n as int));
        lemma_pair(f, x);
        lemma_pair_right(s5, u, f, x);
    }
}

/// The arguments begin with the model, hold the placement, the settings of the preset
/// and the half of the workload, each in one piece, and ask for so many repetitions in
/// lines of JSON.
pub proof fn law_arguments_hold_all(
    p: Preset,
    cfg: ServerConfig,
    load_mode: Seq<char>,
    plan: Plan,
    sweep: SweepView,
)
    ensures
        ({
            let a = bench_argv(p, cfg, load_mode, plan, sweep);
            &&& a.len() >= 2 && a[0] == "-m"@ && a[1] == p.model@
            &&& has_run(a, placement_flags(p, cfg))
            &&& has_run(a, preset_flags(p))
            &&& has_run(a, sweep.args)
            &&& load_mode != "auto"@ ==> has_pair(a, "-lm"@, load_mode)
            &&& cfg.threads matches Some(n) ==> has_pair(a, "-t"@, dec_int(n as int))
            &&& has_pair(a, "-r"@, dec_int(plan.reps as int))
            &&& has_pair(a, "-o"@, "jsonl"@)
        }),
{
    let a = bench_argv(p, cfg, load_mode, plan, sweep);
    let m = seq!["-m"@, p.model@];
    let lm = flag_if(load_mode != "auto"@, "-lm"@, load_mode);
    let t = number_flag("-t"@, cfg.threads);
    let s1 = m + placement_flags(p, cfg);
    let s2 = s1 + preset_flags(p);
    let s3 = s2 + lm;
    let s4 = s3 + t;
    let s5 = s4 + sweep.args;
    let end = seq![
        "-r"@,
        dec_int(plan.reps as int),
        "--delay"@,
        dec_int(crate::bench::DEFAULT_DELAY_SECS as int),
        "-o"@,
        "jsonl"@,
        "--progress"@,
    ];
    assert(a == s5 + end);
    assert(a[0] == m[0] && a[1] == m[1]);
    assert(a.subrange(2, s1.len() as int) =~= placement_flags(p, cfg));
    assert(a.subrange(s1.len() as int, s2.len() as int) =~= preset_flags(p));
    assert(a.subrange(s4.len() as int, s5.len() as int) =~= sweep.args);
    if load_mode != "auto"@ {
        lemma_pair("-lm"@, load_mode);
        lemma_pair_right(s2, lm, "-lm"@, load_mode);
        lemma_pair_left(s3, t, "-lm"@, load_mode);
        lemma_pair_left(s4, sweep.args, "-lm"@, load_mode);
        lemma_pair_left(s5, end, "-lm"@, load_mode);
    }
    if let Some(n) = cfg.threads {
        let x = dec_int(n as int);
        lemma_pair("-t"@, x);
        lemma_pair_right(s3, t, "-t"@, x);
        lemma_pair_left(s4, sweep.args, "-t"@, x);
        lemma_pair_left(s5, end, "-t"@, x);
    }
    assert(end[0] == "-r"@ && end[1] == dec_int(plan.reps as int));
    assert(end[4] == "-o"@ && end[5] == "jsonl"@);
    lemma_pair_right(s5, end, "-r"@, dec_int(plan.reps as int));
    lemma_pair_right(s5, end, "-o"@, "jsonl"@);
}

/// Whether a list holds another one in one piece.
pub open spec fn has_run(a: Seq<Seq<char>>, b: Seq<Seq<char>>) -> bool {
    exists|i: int, j: int| 0 <= i <= j <= a.len() && #[trigger] a.subrange(i, j) == b
}

/// The server's setting goes over the preset's, whatever that is; where it holds
/// nothing but blanks the preset's own is used.
pub proof fn law_server_goes_first(server: String, preset: Seq<char>, other: Seq<char>)
    ensures
        trim(server@).len() > 0 ==> shadowed(Some(server), preset) == trim(server@),
        trim(server@).len() == 0 ==> shadowed(Some(server), preset) == trim(preset),
        shadowed(None, preset) == trim(preset),
{
}

/// Devices and split come from the same place: where the server names the devices, the
/// split of a preset counts for nothing; where it does not, the server's split does.
pub proof fn law_split_follows_the_devices(p: Preset, q: Preset, cfg: ServerConfig, device: String)
    requires
        cfg.device == Some(device),
        trim(device@).len() > 0,
    ensures
        effective_split(p, cfg) == effective_split(q, cfg),
        cfg.tensor_split matches Some(s) ==> effective_split(p, cfg) == trim(s@),
        cfg.tensor_split is None ==> effective_split(p, cfg).len() == 0,
{
}

/// Without devices of the server's own the preset's split is used.
pub proof fn law_own_split_is_used(p: Preset, cfg: ServerConfig)
    requires
        cfg.device matches Some(d) ==> trim(d@).len() == 0,
    ensures
        effective_split(p, cfg) == trim(p.tensor_split@),
{
}

/// A list with another separator has the same entries.
pub proof fn law_reseparated_list_reads_back(csv: Seq<char>, sep: char)
    requires
        !csv_holds(csv, sep),
    ensures
        entries(reseparated(csv, seq![sep]), sep) == entries(csv, ','),
{
    lemma_entries(csv, ',');
    let v = entries(csv, ',');
    assert forall|i: int| 0 <= i < v.len() implies is_entry(#[trigger] v[i], sep) by {
        assert(is_entry(v[i], ','));
    }
    lemma_entries_join(v, sep);
}

/// Whether an entry of a list with commas holds a character.
pub open spec fn csv_holds(csv: Seq<char>, c: char) -> bool {
    exists|i: int| 0 <= i < entries(csv, ',').len() && (#[trigger] entries(csv, ',')[i]).contains(c)
}

/// The placement is passed under its flags: lists with slashes, and pins with
/// semicolons. What is empty is not passed.
pub proof fn law_placement_is_passed(p: Preset, cfg: ServerConfig)
    ensures
        ({
            let device = shadowed(cfg.device, p.device@);
            let split = effective_split(p, cfg);
            let mode = shadowed(cfg.split_mode, p.split_mode@);
            let pins = shadowed(cfg.override_tensor, p.override_tensor@);
            let a = placement_flags(p, cfg);
            &&& device.len() > 0 ==> has_pair(a, "-dev"@, join(entries(device, ','), "/"@))
            &&& split.len() > 0 ==> has_pair(a, "-ts"@, join(entries(split, ','), "/"@))
            &&& mode.len() > 0 && mode != "default"@ ==> has_pair(a, "-sm"@, mode)
            &&& pins.len() > 0 ==> has_pair(a, "-ot"@, join(entries(pins, ','), ";"@))
            &&& device.len() == 0 && split.len() == 0 && mode.len() == 0 && pins.len() == 0 ==> a.len()
                == 0
        }),
{
    let device = shadowed(cfg.device, p.device@);
    let split = effective_split(p, cfg);
    let mode = shadowed(cfg.split_mode, p.split_mode@);
    let pins = shadowed(cfg.override_tensor, p.override_tensor@);
    let d = flag_if(device.len() > 0, "-dev"@, reseparated(device, "/"@));
    let t = flag_if(split.len() > 0, "-ts"@, reseparated(split, "/"@));
    let m = flag_if(mode.len() > 0 && mode != "default"@, "-sm"@, mode);
    let o = flag_if(pins.len() > 0, "-ot"@, reseparated(pins, ";"@));
    let s1 = d + t;
    let s2 = s1 + m;
    assert(placement_flags(p, cfg) == s2 + o);
    if device.len() > 0 {
        let x = join(entries(device, ','), "/"@);
        lemma_pair("-dev"@, x);
        lemma_pair_left(d, t, "-dev"@, x);
        lemma_pair_left(s1, m, "-dev"@, x);
        lemma_pair_left(s2, o, "-dev"@, x);
    }
    if split.len() > 0 {
        let x = join(entries(split, ','), "/"@);
        lemma_pair("-ts"@, x);
        lemma_pair_right(d, t, "-ts"@, x);
        lemma_pair_left(s1, m, "-ts"@, x);
        lemma_pair_left(s2, o, "-ts"@, x);
    }
    if mode.len() > 0 && mode != "default"@ {
        lemma_pair("-sm"@, mode);
        lemma_pair_right(s1, m, "-sm"@, mode);
        lemma_pair_left(s2, o, "-sm"@, mode);
    }
    if pins.len() > 0 {
        let x = join(entries(pins, ','), ";"@);
        lemma_pair("-ot"@, x);
        lemma_pair_right(s2, o, "-ot"@, x);
    }
}

// ── Requests and replies ─────────────────────────────────────────────────

/// A request names the model, holds the prompt as its one message, caps the answer, and
/// is neither streamed nor answered from a cache. It has a temperature exactly where
/// the plan has one.
pub proof fn law_request_says_it(
    preset: Seq<char>,
    content: Seq<char>,
    max_tokens: i64,
    temp: Option<Seq<char>>,
)
    ensures
        ({
            let r = chat_request(preset, content, max_tokens, temp);
            &&& member(r, "model"@) == Some(JsonView::Text(preset))
            &&& member(r, "max_tokens"@) == Some(int_json(max_tokens))
            &&& member(r, "stream"@) == Some(JsonView::Bool(false))
            &&& member(r, "cache_prompt"@) == Some(JsonView::Bool(false))
            &&& member(r, "messages"@) matches Some(JsonView::List(l)) && l.len() == 1 && member(
                l[0],
                "content"@,
            ) == Some(JsonView::Text(content)) && member(l[0], "role"@) == Some(
                JsonView::Text("user"@),
            )
            &&& temp matches Some(t) ==> member(r, "temperature"@) == Some(decimal_json(t))
            &&& temp is None ==> member(r, "temperature"@) is None
        }),
{
    reveal_strlit("model");
    reveal_strlit("messages");
    reveal_strlit("max_tokens");
    reveal_strlit("stream");
    reveal_strlit("cache_prompt");
    reveal_strlit("temperature");
    reveal_strlit("role");
    reveal_strlit("content");
    let m = chat_request(preset, content, max_tokens, temp)->Object_0;
    assert(m[0].0 == "model"@ && m[1].0 == "messages"@ && m[2].0 == "max_tokens"@ && m[3].0
        == "stream"@ && m[4].0 == "cache_prompt"@);
    assert("model"@.len() == 5 && "messages"@.len() == 8 && "max_tokens"@.len() == 10 && "stream"@.len()
        == 6 && "cache_prompt"@.len() == 12 && "temperature"@.len() == 11);
    lemma_member_at_is(m, "model"@, 0);
    lemma_member_at_is(m, "messages"@, 1);
    lemma_member_at_is(m, "max_tokens"@, 2);
    lemma_member_at_is(m, "stream"@, 3);
    lemma_member_at_is(m, "cache_prompt"@, 4);
    let message = (m[1].1->List_0)[0];
    let mm = message->Object_0;
    assert("role"@.len() == 4 && "content"@.len() == 7);
    assert(mm[0].0 == "role"@ && mm[1].0 == "content"@);
    lemma_member_at_is(mm, "role"@, 0);
    lemma_member_at_is(mm, "content"@, 1);
    match temp {
        Some(t) => {
            assert(m[5].0 == "temperature"@);
            lemma_member_at_is(m, "temperature"@, 5);
        },
        None => {
            crate::json::lemma_member_at_none(m, "temperature"@);
        },
    }
}

/// The timings of a reply are the numbers that it gives under their names.
pub proof fn law_timings_are_read(
    t: Timings,
    v: JsonView,
    prompt_n: i64,
    predicted_n: i64,
    cache_n: i64,
    prompt: Seq<char>,
    predicted: Seq<char>,
)
    requires
        timings_are(t, v),
        member(v, "prompt_n"@) == Some(int_json(prompt_n)),
        member(v, "predicted_n"@) == Some(int_json(predicted_n)),
        member(v, "cache_n"@) == Some(int_json(cache_n)),
        member(v, "prompt_per_second"@) == Some(JsonView::Number(None, prompt)),
        member(v, "predicted_per_second"@) == Some(JsonView::Number(None, predicted)),
        member(v, "draft_n"@) is None,
        member(v, "draft_n_accepted"@) is None,
    ensures
        t.prompt_n == prompt_n,
        t.predicted_n == predicted_n,
        t.cache_n == cache_n,
        t.prompt_tps@ == prompt,
        t.predicted_tps@ == predicted,
        t.draft_n == 0,
        t.draft_accepted == 0,
{
}

/// What was drafted is read where it is given.
pub proof fn law_drafts_are_read(t: Timings, v: JsonView, drafted: i64, kept: i64)
    requires
        timings_are(t, v),
        member(v, "draft_n"@) == Some(int_json(drafted)),
        member(v, "draft_n_accepted"@) == Some(int_json(kept)),
    ensures
        t.draft_n == drafted,
        t.draft_accepted == kept,
{
}

/// A test is named after the prompt where it has one, else after what it generates; the
/// depth, where there is one, stands behind.
pub proof fn law_test_labels(p: i64, g: i64, d: i64)
    requires
        p > 0,
        g >= 0,
        d > 0,
    ensures
        test_label(p, g, 0) == "pp"@ + dec_int(p as int),
        test_label(0, g, 0) == "tg"@ + dec_int(g as int),
        test_label(p, g, d) == test_label(p, g, 0) + " @ d"@ + dec_int(d as int),
        test_label(0, g, d) == test_label(0, g, 0) + " @ d"@ + dec_int(d as int),
{
}

/// Flash attention is told as on or off, whether the row says so by a truth value or by
/// a number.
pub proof fn law_flash_attention_words(v: JsonView, n: i64, numeral: Seq<char>)
    ensures
        member(v, "flash_attn"@) == Some(JsonView::Bool(true)) ==> flash_attn_word(Some(v)) == Some("on"@),
        member(v, "flash_attn"@) == Some(JsonView::Bool(false)) ==> flash_attn_word(Some(v)) == Some(
            "off"@,
        ),
        member(v, "flash_attn"@) == Some(JsonView::Number(Some(n), numeral)) && n == 0 ==> flash_attn_word(
            Some(v),
        ) == Some("off"@),
        member(v, "flash_attn"@) == Some(JsonView::Number(Some(n), numeral)) && n != 0 ==> flash_attn_word(
            Some(v),
        ) == Some("on"@),
        member(v, "flash_attn"@) is None ==> flash_attn_word(Some(v)) is None,
{
}

// ── Devices in a run ─────────────────────────────────────────────────────

/// The name of a device is that of the first one with its id, in any case of the
/// letters, and nothing where there is none.
pub proof fn law_device_name(ds: Seq<Device>, id: Seq<char>, k: int)
    requires
        0 <= k <= ds.len(),
        forall|j: int| 0 <= j < k ==> lower_all((#[trigger] ds[j]).id) != lower_all(id),
        k < ds.len() ==> lower_all(ds[k].id) == lower_all(id),
    ensures
        k < ds.len() ==> name_of(ds, id) == ds[k].name,
        k == ds.len() ==> name_of(ds, id).len() == 0,
    decreases ds.len(),
{
    if ds.len() > 0 && k > 0 {
        let rest = ds.skip(1);
        assert forall|j: int| 0 <= j < k - 1 implies lower_all((#[trigger] rest[j]).id) != lower_all(
            id,
        ) by {
            assert(rest[j] == ds[j + 1]);
        }
        if k < ds.len() {
            assert(rest[k - 1] == ds[k]);
        }
        assert(lower_all(ds[0].id) != lower_all(id));
        law_device_name(rest, id, k - 1);
    }
}

/// A preset is warned about exactly where a device of its has no name.
pub proof fn law_nameless_devices_are_told(preset: Seq<char>, ds: Seq<(Seq<char>, Seq<char>)>)
    ensures
        unknown_of(preset, ds).len() == 0 <==> forall|i: int|
            0 <= i < ds.len() ==> (#[trigger] ds[i]).1.len() > 0,
    decreases ds.len(),
{
    if ds.len() > 0 {
        let init = ds.drop_last();
        law_nameless_devices_are_told(preset, init);
        assert(ds[ds.len() - 1] == ds.last());
        if unknown_of(preset, ds).len() == 0 {
            assert forall|i: int| 0 <= i < ds.len() implies (#[trigger] ds[i]).1.len() > 0 by {
                if i < init.len() {
                    assert(init[i] == ds[i]);
                }
            }
        }
        if forall|i: int| 0 <= i < ds.len() ==> (#[trigger] ds[i]).1.len() > 0 {
            assert forall|i: int| 0 <= i < init.len() implies (#[trigger] init[i]).1.len() > 0 by {
                assert(init[i] == ds[i]);
            }
        }
    }
}

/// A decimal number stays one in JSON, with a point where it has none, and what is no
/// number is null.
pub proof fn law_decimals_in_json(s: Seq<char>)
    ensures
        s == "NaN"@ || s == "inf"@ || s == "-inf"@ <==> decimal_json(s) == JsonView::Null,
        decimal_json(s) != JsonView::Null && s.contains('.') ==> decimal_json(s) == JsonView::Number(None, s),
        decimal_json(s) != JsonView::Null && !s.contains('.') && !s.contains('e') && !s.contains('E')
            ==> decimal_json(s) == JsonView::Number(None, s + ".0"@),
{
}

/// A run is warned of exactly where one of its presets names a device that is not known.
pub proof fn law_unknown_devices_are_warned_of(resolved: Seq<(String, Vec<(String, String)>)>)
    ensures
        unknown_warning(unknown_all(resolved)) is None <==> forall|i: int|
            0 <= i < resolved.len() ==> unknown_of(
                (#[trigger] resolved[i]).0@,
                pairs(resolved[i].1@),
            ).len() == 0,
    decreases resolved.len(),
{
    if resolved.len() > 0 {
        let init = resolved.drop_last();
        law_unknown_devices_are_warned_of(init);
        assert forall|i: int| 0 <= i < init.len() implies init[i] == resolved[i] by {}
        let last = unknown_of(resolved.last().0@, pairs(resolved.last().1@));
        assert(unknown_all(resolved).len() == unknown_all(init).len() + last.len());
        if unknown_all(resolved).len() == 0 {
            assert forall|i: int| 0 <= i < resolved.len() implies unknown_of(
                (#[trigger] resolved[i]).0@,
                pairs(resolved[i].1@),
            ).len() == 0 by {
                if i < init.len() {
                    assert(init[i] == resolved[i]);
                }
            }
        } else if last.len() == 0 {
            assert(unknown_warning(unknown_all(init)) is Some);
            let k = choose|k: int|
                0 <= k < init.len() && unknown_of((#[trigger] init[k]).0@, pairs(init[k].1@)).len() > 0;
            assert(resolved[k] == init[k]);
        } else {
            assert(resolved[resolved.len() - 1] == resolved.last());
        }
    }
}

} // verus!
