//! What holds of a sweep from its list of values to the value it leaves behind.
use vstd::prelude::*;
use vstd::string::*;
use crate::bench::Mode;
use crate::ini::{has_marker, keys_of, read, section_at};
use crate::preset_file::{
    can_write, law_sweepable_keys_are_written, lemma_pairs_are_listed, preset_key, preset_keys,
    preset_pairs, preset_value, swept_value,
};
use crate::presets::Preset;
use crate::results::{points_view, PointView};
use crate::sections::{flag_shown, keys_in, law_section_reads_back, lookup, section_of};
use crate::sweep::{
    applied_value, boolean_value, expansion, expansions, first_bad_value, first_decode, is_of,
    key_is_set, key_words, leg_line_text, leg_problems, newest_of, number_value, primary_of,
    range_ends, sweep_names_in, sweep_values, sweep_verdict, sweepable, test_at, text_value,
    value_in_file, value_problem, wins, Apply, Leg, SweepFile, SweepKey,
};
use crate::text::{
    dec, dec_int, find, is_digit, is_entry, join, lemma_dec, lemma_entries_join, lemma_find_from, lemma_parse_dec_int,
    lower, lower_all, occurs_at, trim, trim_end, trim_start,
};

verus! {

// ── One value ────────────────────────────────────────────────────────────

/// A flag is set by the words for yes, cleared to no by the words for no, and taken out
/// by `unset`, in any case of their letters; no other word is taken.
pub proof fn law_flag_words(v: Seq<char>)
    ensures
        ({
            let w = lower_all(v);
            &&& (w == "true"@ || w == "on"@ || w == "yes"@ || w == "1"@) <==> boolean_value(v)
                == Ok::<Option<bool>, Seq<char>>(Some(true))
            &&& (w == "false"@ || w == "off"@ || w == "no"@ || w == "0"@) <==> boolean_value(v)
                == Ok::<Option<bool>, Seq<char>>(Some(false))
            &&& w == "unset"@ <==> boolean_value(v) == Ok::<Option<bool>, Seq<char>>(None)
        }),
{
    lemma_flag_letters();
}

proof fn lemma_flag_letters()
    ensures
        "true"@ == seq!['t', 'r', 'u', 'e'],
        "on"@ == seq!['o', 'n'],
        "yes"@ == seq!['y', 'e', 's'],
        "1"@ == seq!['1'],
        "false"@ == seq!['f', 'a', 'l', 's', 'e'],
        "off"@ == seq!['o', 'f', 'f'],
        "no"@ == seq!['n', 'o'],
        "0"@ == seq!['0'],
        "unset"@ == seq!['u', 'n', 's', 'e', 't'],
        "true"@ != "false"@,
        "true"@ != "off"@,
        "true"@ != "no"@,
        "true"@ != "0"@,
        "on"@ != "false"@,
        "on"@ != "off"@,
        "on"@ != "no"@,
        "on"@ != "0"@,
        "yes"@ != "false"@,
        "yes"@ != "off"@,
        "yes"@ != "no"@,
        "yes"@ != "0"@,
        "1"@ != "false"@,
        "1"@ != "off"@,
        "1"@ != "no"@,
        "1"@ != "0"@,
        "true"@ != "unset"@,
        "on"@ != "unset"@,
        "yes"@ != "unset"@,
        "1"@ != "unset"@,
        "false"@ != "unset"@,
        "off"@ != "unset"@,
        "no"@ != "unset"@,
        "0"@ != "unset"@,
        lower_all("unset"@) == "unset"@,
        lower_all("true"@) == "true"@,
        lower_all("false"@) == "false"@,
{
    reveal_strlit("true");
    reveal_strlit("on");
    reveal_strlit("yes");
    reveal_strlit("1");
    reveal_strlit("false");
    reveal_strlit("off");
    reveal_strlit("no");
    reveal_strlit("0");
    reveal_strlit("unset");
    assert("true"@ =~= seq!['t', 'r', 'u', 'e']);
    assert("on"@ =~= seq!['o', 'n']);
    assert("yes"@ =~= seq!['y', 'e', 's']);
    assert("1"@ =~= seq!['1']);
    assert("false"@ =~= seq!['f', 'a', 'l', 's', 'e']);
    assert("off"@ =~= seq!['o', 'f', 'f']);
    assert("no"@ =~= seq!['n', 'o']);
    assert("0"@ =~= seq!['0']);
    assert("unset"@ =~= seq!['u', 'n', 's', 'e', 't']);
    assert("true"@.len() == 4 && "on"@.len() == 2 && "yes"@.len() == 3 && "1"@.len() == 1);
    assert("false"@.len() == 5 && "off"@.len() == 3 && "no"@.len() == 2 && "0"@.len() == 1);
    assert("on"@[0] == 'o' && "no"@[0] == 'n');
    assert("yes"@[0] == 'y' && "off"@[0] == 'o');
    assert("1"@[0] == '1' && "0"@[0] == '0');
    assert("false"@[0] == 'f' && "unset"@[0] == 'u' && "unset"@.len() == 5);
    assert(lower_all("unset"@) =~= "unset"@);
    assert(lower_all("true"@) =~= "true"@);
    assert(lower_all("false"@) =~= "false"@);
}

/// A flag that presets.ini shows is set again by the word that shows it: the two words
/// never set the same value, on either key that holds a flag.
pub proof fn law_shown_flag_is_set(b: bool, now: Preset, was: Preset)
    ensures
        boolean_value(flag_shown(Some(b))) == Ok::<Option<bool>, Seq<char>>(Some(b)),
        key_is_set(SweepKey::FlashAttn, now, was, flag_shown(Some(b))) ==> now.flash_attn == Some(b),
        key_is_set(SweepKey::MmprojOffload, now, was, flag_shown(Some(b))) ==> now.mmproj_offload
            == Some(b),
        value_problem(SweepKey::FlashAttn, flag_shown(Some(b))) is None,
        value_problem(SweepKey::MmprojOffload, flag_shown(Some(b))) is None,
{
    lemma_flag_letters();
    law_flag_words(flag_shown(Some(b)));
}

/// A number is set by its numeral.
pub proof fn law_numeral_is_set(n: i32)
    ensures
        number_value(dec_int(n as int)) == Ok::<Option<i32>, Seq<char>>(Some(n)),
{
    let d = dec_int(n as int);
    lemma_flag_letters();
    lemma_parse_dec_int(n as int, i32::MIN as int, i32::MAX as int);
    if n >= 0 {
        lemma_dec(n as nat);
        assert(is_digit(d[0]));
    }
    assert(lower_all(d)[0] == lower(d[0]));
    assert(lower_all(d)[0] != 'u');
}

/// A key that is set to the value that a preset shows under it shows that value: what a
/// sweep finds in one preset it can put into any.
pub proof fn law_shown_value_is_set(key: SweepKey, source: Preset, now: Preset, was: Preset)
    requires
        swept_value(key, source).len() > 0,
        !has_marker(swept_value(key, source)),
        lower_all(swept_value(key, source)) != "unset"@,
    ensures
        value_problem(key, swept_value(key, source)) is None,
        key_is_set(key, now, was, swept_value(key, source)) ==> swept_value(key, now) == swept_value(
            key,
            source,
        ),
{
    lemma_flag_letters();
    let v = swept_value(key, source);
    match key {
        SweepKey::SpecDraftNMax => law_numeral_is_set(source.spec_draft_n_max->0),
        SweepKey::NGpuLayersDraft => law_numeral_is_set(source.n_gpu_layers_draft->0),
        SweepKey::NGpuLayers => law_numeral_is_set(source.n_gpu_layers->0),
        SweepKey::NCpuMoe => law_numeral_is_set(source.n_cpu_moe->0),
        SweepKey::CtxSize => law_numeral_is_set(source.ctx_size->0),
        SweepKey::BatchSize => law_numeral_is_set(source.batch_size->0),
        SweepKey::UbatchSize => law_numeral_is_set(source.ubatch_size->0),
        SweepKey::Parallel => law_numeral_is_set(source.parallel->0),
        SweepKey::CacheRam => law_numeral_is_set(source.cache_ram->0),
        SweepKey::FlashAttn => law_shown_flag_is_set(source.flash_attn->0, now, was),
        SweepKey::MmprojOffload => law_shown_flag_is_set(source.mmproj_offload->0, now, was),
        _ => {
            assert(text_value(v) == Ok::<Seq<char>, Seq<char>>(v));
        },
    }
}

/// `unset`, in any case of its letters, is taken by every key and leaves it without a
/// value.
pub proof fn law_unset_clears(key: SweepKey, v: Seq<char>, now: Preset, was: Preset)
    requires
        lower_all(v) == "unset"@,
    ensures
        value_problem(key, v) is None,
        key_is_set(key, now, was, v) ==> swept_value(key, now).len() == 0,
{
    lemma_flag_letters();
    law_flag_words(v);
}

/// A key that is set changes its own line of presets.ini and no other.
pub proof fn law_only_the_key_changes(key: SweepKey, v: Seq<char>, now: Preset, was: Preset, i: int)
    requires
        key_is_set(key, now, was, v),
        0 <= i < preset_keys(),
        preset_key(i) != key.word(),
    ensures
        preset_value(now, i) == preset_value(was, i),
        now.id == was.id,
{
}

/// A text that the INI would cut short is not taken, by the keys that hold texts.
pub proof fn law_markers_are_refused(key: SweepKey, v: Seq<char>)
    requires
        has_marker(v),
        lower_all(v) != "unset"@,
        key == SweepKey::Device || key == SweepKey::TensorSplit || key == SweepKey::SplitMode || key
            == SweepKey::OverrideTensor || key == SweepKey::SpecType || key == SweepKey::ModelDraft || key
            == SweepKey::DeviceDraft || key == SweepKey::CacheTypeK || key == SweepKey::CacheTypeV || key
            == SweepKey::SpecDraftTypeK || key == SweepKey::SpecDraftTypeV,
    ensures
        value_problem(key, v) is Some,
{
    lemma_flag_letters();
}

/// No two keys have the same word.
pub proof fn law_words_differ(a: SweepKey, b: SweepKey)
    requires
        a.word() == b.word(),
    ensures
        a == b,
{
    reveal_strlit("spec-draft-n-max");
    reveal_strlit("spec-type");
    reveal_strlit("model-draft");
    reveal_strlit("device-draft");
    reveal_strlit("n-gpu-layers-draft");
    reveal_strlit("spec-draft-type-k");
    reveal_strlit("spec-draft-type-v");
    reveal_strlit("device");
    reveal_strlit("tensor-split");
    reveal_strlit("split-mode");
    reveal_strlit("override-tensor");
    reveal_strlit("n-gpu-layers");
    reveal_strlit("n-cpu-moe");
    reveal_strlit("ctx-size");
    reveal_strlit("batch-size");
    reveal_strlit("ubatch-size");
    reveal_strlit("parallel");
    reveal_strlit("cache-ram");
    reveal_strlit("cache-type-k");
    reveal_strlit("cache-type-v");
    reveal_strlit("flash-attn");
    reveal_strlit("mmproj-offload");
    let x = a.word();
    let y = b.word();
    assert(x.len() == y.len());
    assert(x[0] == y[0]);
    assert(x[2] == y[2]);
    assert(x.last() == y.last());
}

// ── The values of a sweep ────────────────────────────────────────────────

/// Tokens without two dots stand for themselves.
proof fn lemma_plain_tokens(v: Seq<Seq<char>>)
    requires
        forall|i: int| 0 <= i < v.len() ==> range_ends(#[trigger] v[i]) is None,
    ensures
        expansions(v) == Ok::<Seq<Seq<char>>, Seq<char>>(v),
    decreases v.len(),
{
    if v.len() > 0 {
        let init = v.drop_last();
        assert forall|i: int| 0 <= i < init.len() implies range_ends(#[trigger] init[i]) is None by {
            assert(init[i] == v[i]);
        }
        lemma_plain_tokens(init);
        assert(v[v.len() - 1] == v.last());
        assert(init + seq![v.last()] =~= v);
    } else {
        assert(v =~= Seq::<Seq<char>>::empty());
    }
}

/// Whether two dots stand somewhere in a text.
pub open spec fn has_dots(s: Seq<char>) -> bool {
    exists|i: int| 0 <= i < s.len() - 1 && #[trigger] s[i] == '.' && s[i + 1] == '.'
}

proof fn lemma_no_dots(s: Seq<char>)
    requires
        !has_dots(s),
    ensures
        range_ends(s) is None,
{
    reveal_strlit("..");
    lemma_find_from(s, ".."@, 0);
    if let Some(i) = find(s, ".."@) {
        assert(occurs_at(s, ".."@, i));
        let w = s.subrange(i, i + 2);
        assert(w[0] == s[i] && w[1] == s[i + 1]);
        assert(w == ".."@);
        assert(s[i] == '.' && s[i + 1] == '.');
    }
}

/// A list of values with a separator between them is that list. The separator is a
/// semicolon, so that values may hold commas.
pub proof fn law_values_read_back(v: Seq<Seq<char>>)
    requires
        v.len() >= 2,
        forall|i: int| 0 <= i < v.len() ==> is_entry(#[trigger] v[i], ';') && !has_dots(v[i]),
    ensures
        sweep_values(join(v, seq![';'])) == Ok::<Seq<Seq<char>>, Seq<char>>(v),
{
    lemma_entries_join(v, ';');
    assert forall|i: int| 0 <= i < v.len() implies range_ends(#[trigger] v[i]) is None by {
        lemma_no_dots(v[i]);
    }
    lemma_plain_tokens(v);
    lemma_join_has_sep(v, ';');
}

proof fn lemma_join_has_sep(v: Seq<Seq<char>>, sep: char)
    requires
        v.len() >= 2,
    ensures
        join(v, seq![sep]).contains(sep),
{
    let s = join(v, seq![sep]);
    let a = join(v.drop_last(), seq![sep]);
    assert(s == a + seq![sep] + v.last());
    assert(s[a.len() as int] == sep);
}

proof fn lemma_join_without(v: Seq<Seq<char>>, sep: char, c: char)
    requires
        c != sep,
        forall|i: int| 0 <= i < v.len() ==> !(#[trigger] v[i]).contains(c),
    ensures
        !join(v, seq![sep]).contains(c),
    decreases v.len(),
{
    let s = join(v, seq![sep]);
    if v.len() == 1 {
        assert(s == v[0]);
    } else if v.len() > 1 {
        let init = v.drop_last();
        assert forall|i: int| 0 <= i < init.len() implies !(#[trigger] init[i]).contains(c) by {
            assert(init[i] == v[i]);
        }
        lemma_join_without(init, sep, c);
        let a = join(init, seq![sep]);
        assert(s == a + seq![sep] + v.last());
        assert(!v[v.len() - 1].contains(c));
        assert forall|i: int| 0 <= i < s.len() implies s[i] != c by {
            if i < a.len() {
                assert(s[i] == a[i]);
                assert(a.contains(a[i]));
            } else if i > a.len() {
                assert(s[i] == v.last()[i - a.len() - 1]);
                assert(v.last().contains(s[i]));
            }
        }
    }
}

/// Without a semicolon the comma separates.
pub proof fn law_values_with_commas(v: Seq<Seq<char>>)
    requires
        v.len() >= 1,
        forall|i: int|
            0 <= i < v.len() ==> is_entry(#[trigger] v[i], ',') && !v[i].contains(';') && !has_dots(v[i]),
    ensures
        sweep_values(join(v, seq![','])) == Ok::<Seq<Seq<char>>, Seq<char>>(v),
{
    lemma_entries_join(v, ',');
    assert forall|i: int| 0 <= i < v.len() implies range_ends(#[trigger] v[i]) is None by {
        lemma_no_dots(v[i]);
    }
    lemma_plain_tokens(v);
    lemma_join_without(v, ',', ';');
}

pub proof fn lemma_dec_int_shape(n: int)
    ensures
        dec_int(n).len() > 0,
        trim(dec_int(n)) == dec_int(n),
        forall|i: int|
            0 <= i < dec_int(n).len() ==> is_digit(#[trigger] dec_int(n)[i]) || dec_int(n)[i] == '-',
{
    let d = dec_int(n);
    reveal_strlit("-");
    lemma_dec((if n < 0 {
        -n
    } else {
        n
    }) as nat);
    let e = dec((if n < 0 {
        -n
    } else {
        n
    }) as nat);
    assert forall|i: int| 0 <= i < d.len() implies is_digit(#[trigger] d[i]) || d[i] == '-' by {
        if n < 0 {
            if i > 0 {
                assert(d[i] == e[i - 1]);
            }
        }
    }
    assert(trim_start(d) == d);
    assert(trim_end(d) == d);
}

/// A range `a..b` stands for the numbers from the one to the other, both with it, in
/// their order. One that runs backwards is refused, and so is one of more than 64.
pub proof fn law_range_is_counted(a: int, b: int)
    requires
        i64::MIN <= a <= i64::MAX,
        i64::MIN <= b <= i64::MAX,
    ensures
        ({
            let r = sweep_values(dec_int(a) + ".."@ + dec_int(b));
            &&& a <= b < a + 64 <==> r is Ok
            &&& r matches Ok(v) ==> v.len() == b - a + 1 && forall|i: int|
                0 <= i < v.len() ==> #[trigger] v[i] == dec_int(a + i)
        }),
{
    reveal_strlit("..");
    lemma_dec_int_shape(a);
    lemma_dec_int_shape(b);
    let x = dec_int(a);
    let y = dec_int(b);
    let t = x + ".."@ + y;
    let n = x.len() as int;
    assert forall|i: int| 0 <= i < n implies t[i] != '.' && t[i] != ';' && t[i] != ',' by {
        assert(t[i] == x[i]);
    }
    assert(t[n] == '.' && t[n + 1] == '.');
    assert forall|i: int| n + 2 <= i < t.len() implies t[i] != '.' && t[i] != ';' && t[i] != ',' by {
        assert(t[i] == y[i - n - 2]);
    }
    lemma_find_from(t, ".."@, 0);
    assert(occurs_at(t, ".."@, n)) by {
        assert(t.subrange(n, n + 2) =~= ".."@);
    }
    let at = find(t, ".."@)->0;
    assert(at == n) by {
        if at < n {
            assert(t.subrange(at, at + 2)[0] == t[at]);
        }
    }
    assert(t.take(n) =~= x);
    assert(t.skip(n + 2) =~= y);
    lemma_parse_dec_int(a, i64::MIN as int, i64::MAX as int);
    lemma_parse_dec_int(b, i64::MIN as int, i64::MAX as int);
    assert(range_ends(t) == Some((a, b)));
    assert(t[0] == x[0]);
    assert(t.last() == y.last());
    assert(trim_start(t) == t);
    assert(trim_end(t) == t);
    assert(is_entry(t, ','));
    lemma_entries_join(seq![t], ',');
    assert(join(seq![t], seq![',']) == t);
    assert(seq![t].drop_last() =~= Seq::<Seq<char>>::empty());
    let none = Seq::<Seq<char>>::empty();
    assert(expansions(none) == Ok::<Seq<Seq<char>>, Seq<char>>(none));
    if expansion(t) is Ok {
        assert(none + expansion(t)->Ok_0 =~= expansion(t)->Ok_0);
    }
}

/// A list that holds nothing is refused.
pub proof fn law_empty_list_is_refused()
    ensures
        sweep_values(Seq::empty()) is Err,
{
    lemma_entries_join(Seq::empty(), ',');
    assert(join(Seq::<Seq<char>>::empty(), seq![',']) =~= Seq::<char>::empty());
}

/// All values are tried before the first leg: there is no complaint only where the key
/// takes every one of them.
pub proof fn law_every_value_is_tried(key: SweepKey, values: Seq<Seq<char>>)
    ensures
        first_bad_value(key, values) is None <==> forall|i: int|
            0 <= i < values.len() ==> value_problem(key, #[trigger] values[i]) is None,
    decreases values.len(),
{
    if values.len() > 0 {
        let rest = values.skip(1);
        law_every_value_is_tried(key, rest);
        assert forall|i: int| 0 <= i < rest.len() implies #[trigger] rest[i] == values[i + 1] by {}
        if first_bad_value(key, values) is None {
            assert forall|i: int| 0 <= i < values.len() implies value_problem(
                key,
                #[trigger] values[i],
            ) is None by {
                if i > 0 {
                    assert(rest[i - 1] == values[i]);
                }
            }
        }
    }
}

// ── The winner ───────────────────────────────────────────────────────────

/// Whether a leg has a point of a test, and no earlier one of it, with a rank.
pub open spec fn has_rank(leg: Leg, test: Seq<char>, k: int, rank: int) -> bool {
    let ps = points_view(leg.points@);
    &&& 0 <= k < ps.len()
    &&& ps[k].test == test
    &&& ps[k].rank == rank
    &&& forall|j: int| 0 <= j < k ==> (#[trigger] ps[j]).test != test
}

proof fn lemma_test_at(ps: Seq<PointView>, test: Seq<char>)
    ensures
        -1 <= test_at(ps, test) < ps.len(),
        test_at(ps, test) >= 0 ==> ps[test_at(ps, test)].test == test,
        forall|j: int|
            0 <= j < ps.len() && (test_at(ps, test) < 0 || j < test_at(ps, test)) ==> (#[trigger] ps[j]).test
                != test,
    decreases ps.len(),
{
    if ps.len() > 0 {
        let init = ps.drop_last();
        lemma_test_at(init, test);
        assert forall|j: int|
            0 <= j < ps.len() && (test_at(ps, test) < 0 || j < test_at(ps, test)) implies (
        #[trigger] ps[j]).test != test by {
            if j < init.len() {
                assert(init[j] == ps[j]);
            }
        }
    }
}

/// The leg with the highest mean of a test wins; of some that are equal, the first.
pub proof fn law_highest_wins(legs: Seq<Leg>, test: Seq<char>, i: int, k: int, rank: int)
    requires
        0 <= i < legs.len(),
        has_rank(legs[i], test, k, rank),
        forall|j: int, m: int, other: int|
            0 <= j < legs.len() && j != i && #[trigger] has_rank(legs[j], test, m, other) ==> if j < i {
                other < rank
            } else {
                other <= rank
            },
    ensures
        wins(legs, test, i),
{
    lemma_test_at(points_view(legs[i].points@), test);
    assert(test_at(points_view(legs[i].points@), test) == k);
    assert forall|j: int|
        0 <= j < legs.len() && (#[trigger] legs[j]).measured(test) is Some implies legs[j].measured(
        test,
    )->0.rank <= rank && (j < i ==> legs[j].measured(test)->0.rank < rank) by {
        let ps = points_view(legs[j].points@);
        lemma_test_at(ps, test);
        let at = test_at(ps, test);
        assert(has_rank(legs[j], test, at, ps[at].rank as int));
    }
}

/// The deciding test of a live sweep is decode. That of a synthetic one is the first
/// decode test that a leg measured, and the first test where none was.
pub proof fn law_deciding_test(ps: Seq<PointView>, k: int)
    requires
        0 <= k < ps.len(),
        ps[k].test.len() >= 2 && ps[k].test[0] == 't' && ps[k].test[1] == 'g',
        forall|j: int|
            0 <= j < k ==> !((#[trigger] ps[j]).test.len() >= 2 && ps[j].test[0] == 't' && ps[j].test[1]
                == 'g'),
    ensures
        primary_of(Mode::Synthetic, ps) == ps[k].test,
        primary_of(Mode::Live, ps) == "decode"@,
    decreases ps.len(),
{
    reveal_strlit("tg");
    lemma_first_decode(ps, k);
}

proof fn lemma_first_decode(ps: Seq<PointView>, k: int)
    requires
        0 <= k < ps.len(),
        ps[k].test.len() >= 2 && ps[k].test[0] == 't' && ps[k].test[1] == 'g',
        forall|j: int|
            0 <= j < k ==> !((#[trigger] ps[j]).test.len() >= 2 && ps[j].test[0] == 't' && ps[j].test[1]
                == 'g'),
    ensures
        first_decode(ps) == Some(ps[k].test),
    decreases ps.len(),
{
    reveal_strlit("tg");
    let t = ps[0].test;
    if k == 0 {
        assert(t.take(2) =~= "tg"@);
        assert(t.subrange(0, 2) =~= "tg"@);
    } else {
        let rest = ps.skip(1);
        assert(rest[k - 1] == ps[k]);
        assert forall|j: int| 0 <= j < k - 1 implies !((#[trigger] rest[j]).test.len() >= 2
            && rest[j].test[0] == 't' && rest[j].test[1] == 'g') by {
            assert(rest[j] == ps[j + 1]);
        }
        lemma_first_decode(rest, k - 1);
        if t.len() >= 2 {
            assert(t.take(2)[0] == t[0] && t.take(2)[1] == t[1]);
            assert(t.subrange(0, 2)[0] == t[0] && t.subrange(0, 2)[1] == t[1]);
        }
    }
}

/// What the preset is left on: the value it had, the last one that was measured, or the
/// winner's. Without a leg, and without a winner, it is the value it had.
pub proof fn law_left_value(original: Seq<char>, legs: Seq<Leg>, i: int)
    requires
        0 <= i < legs.len(),
    ensures
        applied_value(Apply::Original, original, legs, Some(i)) == original,
        applied_value(Apply::Original, original, legs, None) == original,
        applied_value(Apply::Last, original, legs, Some(i)) == legs[legs.len() - 1].value@,
        applied_value(Apply::Last, original, legs, None) == legs[legs.len() - 1].value@,
        applied_value(Apply::Last, original, Seq::empty(), None) == original,
        applied_value(Apply::Best, original, legs, Some(i)) == legs[i].value@,
        applied_value(Apply::Best, original, legs, None) == original,
{
}

// ── How a sweep ends ─────────────────────────────────────────────────────

/// A sweep went well exactly where every leg did, the key was put back and the server
/// was left as it was found.
pub proof fn law_success_needs_all(
    key: Seq<char>,
    legs: Seq<Leg>,
    restore: Option<Seq<char>>,
    server: Option<Seq<char>>,
    report: Seq<char>,
)
    ensures
        sweep_verdict(key, legs, restore, server, report) is None <==> restore is None && server is None
            && forall|i: int| 0 <= i < legs.len() ==> (#[trigger] legs[i]).error@.len() == 0,
{
    lemma_leg_problems(key, legs);
}

proof fn lemma_leg_problems(key: Seq<char>, legs: Seq<Leg>)
    ensures
        leg_problems(key, legs).len() == 0 <==> forall|i: int|
            0 <= i < legs.len() ==> (#[trigger] legs[i]).error@.len() == 0,
        forall|i: int|
            0 <= i < legs.len() && (#[trigger] legs[i]).error@.len() > 0 ==> leg_problems(key, legs).contains(
                key + " = "@ + legs[i].value@ + ": "@ + legs[i].error@,
            ),
    decreases legs.len(),
{
    if legs.len() > 0 {
        let init = legs.drop_last();
        lemma_leg_problems(key, init);
        let before = leg_problems(key, init);
        let now = leg_problems(key, legs);
        assert(legs[legs.len() - 1] == legs.last());
        if now.len() == 0 {
            assert forall|i: int| 0 <= i < legs.len() implies (#[trigger] legs[i]).error@.len() == 0 by {
                if i < init.len() {
                    assert(init[i] == legs[i]);
                }
            }
        }
        if forall|i: int| 0 <= i < legs.len() ==> (#[trigger] legs[i]).error@.len() == 0 {
            assert forall|i: int| 0 <= i < init.len() implies (#[trigger] init[i]).error@.len() == 0 by {
                assert(init[i] == legs[i]);
            }
        }
        assert forall|i: int| 0 <= i < legs.len() && (#[trigger] legs[i]).error@.len() > 0 implies now.contains(
            key + " = "@ + legs[i].value@ + ": "@ + legs[i].error@,
        ) by {
            let text = key + " = "@ + legs[i].value@ + ": "@ + legs[i].error@;
            if i < init.len() {
                assert(init[i] == legs[i]);
                let k = choose|k: int| 0 <= k < before.len() && before[k] == text;
                assert(now[k] == text);
            } else {
                assert(now[now.len() - 1] == text);
            }
        }
    }
}

/// Every leg that failed is told, with its value and what went wrong.
pub proof fn law_failed_legs_are_told(key: Seq<char>, legs: Seq<Leg>, i: int)
    requires
        0 <= i < legs.len(),
        legs[i].error@.len() > 0,
    ensures
        leg_problems(key, legs).contains(key + " = "@ + legs[i].value@ + ": "@ + legs[i].error@),
{
    lemma_leg_problems(key, legs);
}

/// The sweep that counts is the newest one of the preset and key: none before it in the
/// list is of both.
pub proof fn law_newest_sweep_counts(files: Seq<SweepFile>, preset: Seq<char>, key: Seq<char>)
    ensures
        ({
            let at = newest_of(files, preset, key, 0);
            &&& 0 <= at <= files.len()
            &&& at < files.len() ==> files[at].state@.preset == preset && files[at].state@.key == key
            &&& forall|k: int|
                0 <= k < at ==> (#[trigger] files[k]).state@.preset != preset || files[k].state@.key != key
        }),
{
    lemma_newest_from(files, preset, key, 0);
}

proof fn lemma_newest_from(files: Seq<SweepFile>, preset: Seq<char>, key: Seq<char>, from: int)
    requires
        0 <= from <= files.len(),
    ensures
        ({
            let at = newest_of(files, preset, key, from);
            &&& from <= at <= files.len()
            &&& at < files.len() ==> files[at].state@.preset == preset && files[at].state@.key == key
            &&& forall|k: int|
                from <= k < at ==> (#[trigger] files[k]).state@.preset != preset || files[k].state@.key
                    != key
        }),
    decreases files.len() - from,
{
    if from < files.len() && !is_of(files[from], preset, key) {
        lemma_newest_from(files, preset, key, from + 1);
    }
}

/// The files of sweeps are those that are named `sweep-….jsonl`, each as often as it is
/// there.
pub proof fn law_sweep_files(names: Seq<Seq<char>>, name: Seq<char>)
    requires
        names.contains(name),
    ensures
        sweep_names_in(names).contains(name) <==> name.len() >= 6 && name.take(6) == "sweep-"@
            && name.skip(name.len() - 6) == ".jsonl"@,
    decreases names.len(),
{
    lemma_sweep_names(names, name);
}

proof fn lemma_sweep_names(names: Seq<Seq<char>>, name: Seq<char>)
    ensures
        sweep_names_in(names).contains(name) <==> names.contains(name) && name.len() >= 6 && name.take(6)
            == "sweep-"@ && name.skip(name.len() - 6) == ".jsonl"@,
    decreases names.len(),
{
    reveal_strlit("sweep-");
    reveal_strlit(".jsonl");
    if names.len() > 0 {
        let init = names.drop_last();
        lemma_sweep_names(init, name);
        let before = sweep_names_in(init);
        let now = sweep_names_in(names);
        let last = names.last();
        assert(names[names.len() - 1] == last);
        if names.contains(name) && name != last {
            let k = choose|k: int| 0 <= k < names.len() && names[k] == name;
            assert(init[k] == name);
        }
        if init.contains(name) {
            let k = choose|k: int| 0 <= k < init.len() && init[k] == name;
            assert(names[k] == name);
        }
        if before.contains(name) {
            let k = choose|k: int| 0 <= k < before.len() && before[k] == name;
            assert(now[k] == name);
        }
        if now.contains(name) && !before.contains(name) {
            let k = choose|k: int| 0 <= k < now.len() && now[k] == name;
            assert(k == before.len());
        }
        if name == last {
            if now.len() > before.len() {
                assert(now[before.len() as int] == name);
            }
            if name.len() >= 6 {
                assert(name.take(6) =~= name.subrange(0, 6));
                assert(name.skip(name.len() - 6) =~= name.subrange(name.len() - 6, name.len() as int));
            }
        }
    }
}

// ── The value that is put back ───────────────────────────────────────────

/// What a sweep finds in presets.ini is what the preset shows under the key, and
/// `unset` where it shows nothing.
pub proof fn law_found_value_is_shown(p: Preset, key: SweepKey)
    requires
        can_write(p),
        trim(p.id@) == p.id@,
        !p.id@.contains('\n'),
    ensures
        value_in_file(section_of(p.id@, preset_pairs(p)), p.id@, key.word()) == if swept_value(
            key,
            p,
        ).len() > 0 {
            swept_value(key, p)
        } else {
            "unset"@
        },
{
    let v = preset_pairs(p);
    let text = section_of(p.id@, v);
    lemma_pairs_are_listed(p);
    law_section_reads_back(p.id@, v);
    law_sweepable_keys_are_written(key, p);
    let i = choose|i: int|
        0 <= i < preset_keys() && #[trigger] preset_pairs(p)[i] == (key.word(), swept_value(key, p));
    assert(read(text).len() == 1);
    assert(read(text)[0].id == p.id@);
    assert(section_at(read(text), p.id@) == 0) by {
        assert(read(text).drop_last().len() == 0);
        assert(section_at(read(text).drop_last(), p.id@) == -1);
        assert(read(text).last() == read(text)[0]);
    }
    assert(keys_of(text, p.id@) == keys_in(v));
    assert(lookup(keys_in(v), v[i].0) == v[i].1);
}

// ── The keys ─────────────────────────────────────────────────────────────

/// Every key is among those that are listed, and none is listed twice.
pub proof fn law_every_key_is_listed(k: SweepKey, i: int, j: int)
    ensures
        sweepable().contains(k),
        0 <= i < j < sweepable().len() ==> sweepable()[i] != sweepable()[j],
        key_words().contains(k.word()),
{
    let at: int = match k {
        SweepKey::SpecDraftNMax => 0,
        SweepKey::SpecType => 1,
        SweepKey::ModelDraft => 2,
        SweepKey::DeviceDraft => 3,
        SweepKey::NGpuLayersDraft => 4,
        SweepKey::SpecDraftTypeK => 5,
        SweepKey::SpecDraftTypeV => 6,
        SweepKey::Device => 7,
        SweepKey::TensorSplit => 8,
        SweepKey::SplitMode => 9,
        SweepKey::OverrideTensor => 10,
        SweepKey::NGpuLayers => 11,
        SweepKey::NCpuMoe => 12,
        SweepKey::CtxSize => 13,
        SweepKey::BatchSize => 14,
        SweepKey::UbatchSize => 15,
        SweepKey::Parallel => 16,
        SweepKey::CacheRam => 17,
        SweepKey::CacheTypeK => 18,
        SweepKey::CacheTypeV => 19,
        SweepKey::FlashAttn => 20,
        SweepKey::MmprojOffload => 21,
    };
    assert(sweepable()[at] == k);
    assert(key_words()[at] == k.word());
}

/// What is said of a leg as it lands: what went wrong and when, or its rate.
pub proof fn law_leg_lines(leg: Leg, n: int, k: int, rank: int)
    ensures
        leg.error@.len() > 0 ==> leg_line_text(leg, Mode::Live, n) == "    -> failed after "@ + dec(
            leg.secs as nat,
        ) + " s: "@ + leg.error@,
        leg.error@.len() == 0 && has_rank(leg, "decode"@, k, rank) && leg.points@[k].note@.len() == 0
            ==> leg_line_text(leg, Mode::Live, n) == "    -> "@ + "decode"@ + " "@ + leg.points@[k].mean@
            + " t/s (+- "@ + leg.points@[k].sd@ + ", n="@ + dec_int(n) + ") in "@ + dec(leg.secs as nat)
            + " s"@,
{
    let ps = points_view(leg.points@);
    lemma_test_at(ps, "decode"@);
    if has_rank(leg, "decode"@, k, rank) {
        assert(test_at(ps, "decode"@) == k);
        assert(ps[k] == leg.points@[k]@);
        let t = "    -> "@ + "decode"@ + " "@ + leg.points@[k].mean@ + " t/s (+- "@ + leg.points@[k].sd@
            + ", n="@ + dec_int(n) + ") in "@ + dec(leg.secs as nat) + " s"@;
        assert(t + Seq::<char>::empty() =~= t);
    }
}

} // verus!
