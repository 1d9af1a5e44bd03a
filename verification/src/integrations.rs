//! The entries that make coding tools use the local server.
//!
//! OpenCode has a section for the server in its configuration file, with one entry
//! for each preset ([`merge_opencode`]); what else the file holds is kept. A tool
//! without such a file takes environment variables ([`claude_code_env_script`]).
use vstd::prelude::*;
use vstd::slice::slice_subrange;
use vstd::string::*;
use crate::json::{
    agree_at, int_json, json_pretty, json_read, json_value, lemma_member_at_is, lemma_member_at_none,
    max_depth, member, member_at, parse_json, reach, read_json, tidy, write_pretty,
    Json, JsonView,
};
use crate::letters::{to_upper, uppercase};
use crate::pathname::{file_name, name_in};
use crate::presets::Preset;
use crate::text::{
    ends_with, from_chars, has_suffix, is_space, join, join_strs, pieces, push_chars, str_eq, strs,
    to_chars, tokens, tokens_of, trim, trim_end, trim_start, trimmed,
};

verus! {

/// What an absent context advertises where nothing is known of the model.
pub const CTX_FALLBACK: i64 = 131_072;

// ── The context of one request ───────────────────────────────────────────

/// The next multiple of 256.
pub open spec fn padded(v: int) -> int {
    (v + 255) / 256 * 256
}

/// The next multiple of 256.
pub fn pad_256(v: i64) -> (r: i64)
    requires
        0 <= v <= i64::MAX - 255,
    ensures
        r == padded(v as int),
        v <= r <= v + 255,
{
    (v + 255) / 256 * 256
}

/// The context that the server loads: the preset's, else the model's own.
pub open spec fn loaded_ctx(ctx_size: Option<i32>, trained: Option<u32>) -> Option<int> {
    match ctx_size {
        Some(c) => if c > 0 {
            Some(c as int)
        } else {
            trained_ctx(trained)
        },
        None => trained_ctx(trained),
    }
}

pub open spec fn trained_ctx(trained: Option<u32>) -> Option<int> {
    match trained {
        Some(t) => Some(t as int),
        None => None,
    }
}

/// The share of a context that one request gets: all of it where the server picks
/// the number of slots, else one slot's.
pub open spec fn slot_ctx(n_ctx: int, parallel: Option<i32>) -> int {
    match parallel {
        Some(n) => if n > 0 {
            padded(padded(n_ctx) / n as int)
        } else {
            padded(n_ctx)
        },
        None => padded(n_ctx),
    }
}

/// The context that one request may use.
pub open spec fn usable_ctx(ctx_size: Option<i32>, parallel: Option<i32>, trained: Option<u32>) -> int {
    match loaded_ctx(ctx_size, trained) {
        None => CTX_FALLBACK as int,
        Some(n) => match trained {
            Some(t) => if slot_ctx(n, parallel) <= t {
                slot_ctx(n, parallel)
            } else {
                t as int
            },
            None => slot_ctx(n, parallel),
        },
    }
}

/// The context that one request may use.
pub fn effective_ctx(ctx_size: Option<i32>, parallel: Option<i32>, n_ctx_train: Option<u32>) -> (r: i64)
    ensures
        r == usable_ctx(ctx_size, parallel, n_ctx_train),
        0 <= r <= 0x1_0000_0000,
{
    let asked: Option<i64> = match ctx_size {
        Some(c) => if c > 0 {
            Some(c as i64)
        } else {
            None
        },
        None => None,
    };
    let n_ctx: i64 = match asked {
        Some(c) => c,
        None => match n_ctx_train {
            Some(t) => t as i64,
            None => return CTX_FALLBACK,
        },
    };
    let whole: i64 = pad_256(n_ctx);
    let per_slot: i64 = match parallel {
        Some(n) => if n > 0 {
            assert(0 <= whole / n as i64 <= whole) by (nonlinear_arith)
                requires
                    0 <= whole,
                    0 < n,
            ;
            pad_256(whole / (n as i64))
        } else {
            whole
        },
        None => whole,
    };
    match n_ctx_train {
        Some(t) => if per_slot <= t as i64 {
            per_slot
        } else {
            t as i64
        },
        None => per_slot,
    }
}

/// A request is never promised more than the model was trained with.
pub proof fn law_context_within_training(ctx_size: Option<i32>, parallel: Option<i32>, t: u32)
    ensures
        usable_ctx(ctx_size, parallel, Some(t)) <= t,
{
}

/// Without a number of slots every request sees the whole context that the model
/// was trained with.
pub proof fn law_unpinned_slots_see_all(t: u32)
    ensures
        usable_ctx(None, None, Some(t)) == t,
{
}

/// The padding goes to the least multiple of 256 that holds a number.
pub proof fn law_padding(v: int)
    requires
        0 <= v,
    ensures
        padded(v) % 256 == 0,
        v <= padded(v) < v + 256,
{
}

/// The context of a model is a cap on what a slot has, and on nothing else: a slot that
/// fits into it is the same with the model's header as without one, and one that does
/// not is cut to it.
pub proof fn law_training_caps_the_slot(c: i32, parallel: Option<i32>, t: u32)
    requires
        c > 0,
    ensures
        ({
            let free = usable_ctx(Some(c), parallel, None);
            usable_ctx(Some(c), parallel, Some(t)) == if free <= t {
                free
            } else {
                t as int
            }
        }),
{
}

/// So many slots of a context that is a multiple of 256 have that context each, with a
/// header that allows it and without one.
pub proof fn law_slots_share_the_context(n: i32, t: u32, c: i32)
    requires
        0 < n,
        0 < t,
        t % 256 == 0,
        c == n * t,
    ensures
        usable_ctx(Some(c), Some(n), Some(t)) == t,
        usable_ctx(Some(c), Some(n), None) == t,
{
    let k = t as int / 256;
    let whole = n as int * t as int;
    assert(whole == 256 * (n as int * k)) by (nonlinear_arith)
        requires
            t as int == 256 * k,
            whole == n as int * t as int,
    ;
    assert(padded(whole) == whole);
    vstd::arithmetic::div_mod::lemma_div_multiples_vanish(t as int, n as int);
    assert(whole == n as int * t as int);
    assert(whole / n as int == t as int);
    assert(padded(t as int) == t as int);
}

/// What a slot has is the least multiple of 256 that holds its whole part of the
/// context, which is itself rounded up to a multiple of 256 before it is shared.
pub proof fn law_slot_is_a_share(c: i32, n: i32, whole: int)
    requires
        0 < c,
        0 < n,
        whole % 256 == 0,
        c <= whole < c + 256,
    ensures
        ({
            let slot = usable_ctx(Some(c), Some(n), None);
            &&& slot % 256 == 0
            &&& (slot - 255) * n <= whole < (slot + 1) * n
        }),
{
    assert(whole == padded(c as int));
    let m = n as int;
    let q = whole / m;
    let slot = padded(q);
    vstd::arithmetic::div_mod::lemma_fundamental_div_mod(whole, m);
    vstd::arithmetic::div_mod::lemma_mod_bound(whole, m);
    vstd::arithmetic::div_mod::lemma_div_pos_is_pos(whole, m);
    assert((slot - 255) * m <= q * m) by (nonlinear_arith)
        requires
            slot - 255 <= q,
            0 < m,
    ;
    assert((q + 1) * m <= (slot + 1) * m) by (nonlinear_arith)
        requires
            q <= slot,
            0 < m,
    ;
    assert(m * q == q * m && (q + 1) * m == q * m + m) by (nonlinear_arith);
}

/// A context of 0 or less is none; without one the model's own is loaded; a number of
/// slots of 0 or less is none, and none is as good as one slot. Where nothing is known,
/// 131072 is promised.
pub proof fn law_absent_settings(c: i32, n: i32, parallel: Option<i32>, trained: Option<u32>)
    requires
        c <= 0,
        n <= 0,
    ensures
        usable_ctx(Some(c), parallel, trained) == usable_ctx(None, parallel, trained),
        usable_ctx(None, parallel, None) == 131072,
        forall|ctx: Option<i32>|
            #![trigger usable_ctx(ctx, None, trained)]
            usable_ctx(ctx, Some(n), trained) == usable_ctx(ctx, None, trained) && usable_ctx(
                ctx,
                Some(1),
                trained,
            ) == usable_ctx(ctx, None, trained),
        trained matches Some(t) ==> 0 < t <= i32::MAX ==> usable_ctx(None, parallel, trained)
            == usable_ctx(Some(t as i32), parallel, trained),
{
    assert forall|ctx: Option<i32>| #![trigger usable_ctx(ctx, None, trained)]
        usable_ctx(ctx, Some(n), trained) == usable_ctx(ctx, None, trained) && usable_ctx(
            ctx,
            Some(1),
            trained,
        ) == usable_ctx(ctx, None, trained) by {
        if let Some(x) = loaded_ctx(ctx, trained) {
            assert(padded(x) / 1 == padded(x));
            assert(padded(padded(x)) == padded(x));
        }
    }
}

/// More context asked for is never less promised.
pub proof fn law_more_context_is_no_less(c: i32, d: i32, parallel: Option<i32>, trained: Option<u32>)
    requires
        0 < c <= d,
    ensures
        usable_ctx(Some(c), parallel, trained) <= usable_ctx(Some(d), parallel, trained),
{
    if let Some(n) = parallel {
        if n > 0 {
            vstd::arithmetic::div_mod::lemma_div_is_ordered(padded(c as int), padded(d as int), n as int);
        }
    }
}

// ── Names ────────────────────────────────────────────────────────────────

/// The last dot, or -1.
pub open spec fn last_dot(s: Seq<char>) -> int
    decreases s.len(),
{
    if s.len() == 0 {
        -1
    } else if s.last() == '.' {
        s.len() - 1
    } else {
        last_dot(s.drop_last())
    }
}

/// A file name without its extension. One that begins with its only dot has none.
pub open spec fn stem(name: Seq<char>) -> Seq<char> {
    if last_dot(name) > 0 {
        name.take(last_dot(name))
    } else {
        name
    }
}

proof fn lemma_last_dot_take(s: Seq<char>, n: int)
    requires
        0 <= n <= s.len(),
        forall|k: int| n <= k < s.len() ==> s[k] != '.',
    ensures
        last_dot(s) == last_dot(s.take(n)),
    decreases s.len() - n,
{
    if n == s.len() {
        assert(s.take(n) =~= s);
    } else {
        let init = s.drop_last();
        assert(s[s.len() - 1] != '.');
        assert forall|k: int| n <= k < init.len() implies init[k] != '.' by {
            assert(init[k] == s[k]);
        }
        lemma_last_dot_take(init, n);
        assert(init.take(n) =~= s.take(n));
    }
}

fn stem_of(c: &[char]) -> (r: &[char])
    ensures
        r@ == stem(c@),
{
    let n: usize = c.len();
    let mut i: usize = n;
    while i > 0
        invariant
            i <= n,
            n == c@.len(),
            forall|k: int| i <= k < n ==> c@[k] != '.',
        decreases i,
    {
        i -= 1;
        if c[i] == '.' {
            proof {
                lemma_last_dot_take(c@, i + 1);
                assert(c@.take(i + 1).last() == '.');
            }
            if i > 0 {
                let s = slice_subrange(c, 0, i);
                assert(s@ =~= c@.take(i as int));
                return s;
            }
            return c;
        }
    }
    proof {
        lemma_last_dot_take(c@, 0);
        assert(c@.take(0) =~= Seq::<char>::empty());
    }
    c
}

/// A text with spaces for its hyphens and underscores.
pub open spec fn spaced(s: Seq<char>) -> Seq<char> {
    s.map_values(
        |c: char|
            if c == '-' || c == '_' {
                ' '
            } else {
                c
            },
    )
}

fn with_spaces(c: &[char]) -> (r: Vec<char>)
    ensures
        r@ == spaced(c@),
{
    let mut out: Vec<char> = Vec::new();
    let mut i: usize = 0;
    while i < c.len()
        invariant
            i <= c.len(),
            out@.len() == i,
            forall|k: int|
                0 <= k < i ==> #[trigger] out@[k] == if c@[k] == '-' || c@[k] == '_' {
                    ' '
                } else {
                    c@[k]
                },
        decreases c.len() - i,
    {
        out.push(
            if c[i] == '-' || c[i] == '_' {
                ' '
            } else {
                c[i]
            },
        );
        i += 1;
    }
    assert(out@ =~= spaced(c@));
    out
}

/// A word with a capital in front.
pub open spec fn capitalized(w: Seq<char>) -> Seq<char> {
    if w.len() == 0 {
        w
    } else {
        uppercase(w[0]) + w.skip(1)
    }
}

fn capitalize(w: &[char]) -> (r: String)
    ensures
        r@ == capitalized(w@),
{
    if w.len() == 0 {
        return from_chars(w);
    }
    let mut out = to_upper(w[0]);
    let rest = slice_subrange(w, 1, w.len());
    assert(rest@ =~= w@.skip(1));
    push_chars(&mut out, rest);
    out
}

/// The first of some words, capitalized: six at most.
pub open spec fn title(words: Seq<Seq<char>>) -> Seq<char> {
    join(
        words.take(
            if words.len() < 6 {
                words.len() as int
            } else {
                6
            },
        ).map_values(|w: Seq<char>| capitalized(w)),
        " "@,
    )
}

/// The name of a model for people: that of its file, or the preset's id where it
/// has no file.
pub open spec fn friendly(id: Seq<char>, path: Seq<char>) -> Seq<char> {
    title(
        tokens(
            spaced(
                match name_in(path) {
                    Some(n) => stem(n),
                    None => id,
                },
            ),
        ),
    )
}

fn title_of(words: &Vec<&[char]>) -> (r: String)
    ensures
        r@ == title(pieces(words@)),
{
    let n: usize = if words.len() < 6 {
        words.len()
    } else {
        6
    };
    let mut parts: Vec<String> = Vec::new();
    let mut i: usize = 0;
    while i < n
        invariant
            i <= n <= words@.len(),
            parts@.len() == i,
            forall|k: int| 0 <= k < i ==> (#[trigger] parts@[k])@ == capitalized(words@[k]@),
        decreases n - i,
    {
        parts.push(capitalize(words[i]));
        i += 1;
    }
    assert(strs(parts@) =~= pieces(words@).take(n as int).map_values(|w: Seq<char>| capitalized(w)));
    join_strs(&parts, " ")
}

/// The name of a model for people.
pub fn friendly_model_name(id: &str, model_path: &str) -> (r: String)
    ensures
        r@ == friendly(id@, model_path@),
{
    let name = file_name(model_path);
    let c = match &name {
        Some(n) => to_chars(n.as_str()),
        None => to_chars(id),
    };
    let base = match &name {
        Some(_) => stem_of(c.as_slice()),
        None => c.as_slice(),
    };
    let s = with_spaces(base);
    let words = tokens_of(s.as_slice());
    title_of(&words)
}

// ── An entry ─────────────────────────────────────────────────────────────

/// The tokens that a reply may have: a quarter of the context, and enough for a
/// useful one.
pub open spec fn reply_limit(context: int) -> int {
    if context / 4 > 32000 {
        context / 4
    } else {
        32000
    }
}

/// A reply may have a quarter of the context, and never less than 32000 tokens.
pub proof fn law_reply_limit(context: int)
    requires
        0 <= context,
    ensures
        reply_limit(context) >= 32000,
        context <= 128000 ==> reply_limit(context) == 32000,
        context >= 128000 ==> reply_limit(context) * 4 <= context < (reply_limit(context) + 1) * 4,
{
}

pub open spec fn limit_json(context: int) -> JsonView {
    JsonView::Object(
        seq![
            ("context"@, int_json(context as i64)),
            ("input"@, int_json(context as i64)),
            ("output"@, int_json(reply_limit(context) as i64)),
        ],
    )
}

/// The entry of a preset.
pub open spec fn entry_json(p: Preset, trained: Option<u32>) -> JsonView {
    JsonView::Object(
        seq![("name"@, JsonView::Text(friendly(p.id@, p.model@)))] + (if p.reasoning@.len() > 0
            && p.reasoning@ != "auto"@ {
            seq![("reasoning"@, JsonView::Bool(p.reasoning@ == "on"@))]
        } else {
            Seq::empty()
        }) + seq![("limit"@, limit_json(usable_ctx(p.ctx_size, p.parallel, trained)))],
    )
}

fn limit_of(context: i64) -> (r: Json)
    requires
        0 <= context,
    ensures
        r.shape() == limit_json(context as int),
{
    let output: i64 = if context / 4 > 32000 {
        context / 4
    } else {
        32000
    };
    let mut m: Vec<(String, Json)> = Vec::new();
    m.push(("context".to_owned(), Json::number(context)));
    m.push(("input".to_owned(), Json::number(context)));
    m.push(("output".to_owned(), Json::number(output)));
    let j = Json::Object(m);
    assert(j.shape()->Object_0 =~= limit_json(context as int)->Object_0);
    j
}

/// The entry of a preset, given the context its model was trained with.
pub fn preset_to_opencode_model(p: &Preset, n_ctx_train: Option<u32>) -> (r: Json)
    ensures
        r.shape() == entry_json(*p, n_ctx_train),
{
    let mut m: Vec<(String, Json)> = Vec::new();
    let name = friendly_model_name(p.id.as_str(), p.model.as_str());
    m.push(("name".to_owned(), Json::text(name.as_str())));
    if !p.reasoning.as_str().is_empty() && !str_eq(p.reasoning.as_str(), "auto") {
        m.push(("reasoning".to_owned(), Json::flag(str_eq(p.reasoning.as_str(), "on"))));
    }
    let context: i64 = effective_ctx(p.ctx_size, p.parallel, n_ctx_train);
    m.push(("limit".to_owned(), limit_of(context)));
    let j = Json::Object(m);
    assert(j.shape()->Object_0 =~= entry_json(*p, n_ctx_train)->Object_0);
    j
}

// ── Members of an object ─────────────────────────────────────────────────

pub open spec fn members(v: Seq<(String, Json)>) -> Seq<(Seq<char>, JsonView)> {
    v.map_values(|p: (String, Json)| (p.0@, p.1.shape()))
}

/// An object's members once one of them is set.
pub open spec fn with_member(m: Seq<(Seq<char>, JsonView)>, key: Seq<char>, v: JsonView) -> Seq<
    (Seq<char>, JsonView),
> {
    let i = member_at(m, key);
    if 0 <= i < m.len() {
        m.update(i, (key, v))
    } else {
        m.push((key, v))
    }
}

/// A member, or what stands for it where it is absent.
pub open spec fn member_or(m: Seq<(Seq<char>, JsonView)>, key: Seq<char>, d: JsonView) -> JsonView {
    match member(JsonView::Object(m), key) {
        Some(v) => v,
        None => d,
    }
}

pub open spec fn empty_object() -> JsonView {
    JsonView::Object(Seq::empty())
}

proof fn lemma_object_shape(v: Vec<(String, Json)>)
    ensures
        Json::Object(v).shape() == JsonView::Object(members(v@)),
{
    assert(Json::Object(v).shape()->Object_0 =~= members(v@));
}

pub proof fn lemma_with_member(m: Seq<(Seq<char>, JsonView)>, key: Seq<char>, v: JsonView, other: Seq<char>)
    ensures
        member(JsonView::Object(with_member(m, key, v)), key) == Some(v),
        other != key ==> member(JsonView::Object(with_member(m, key, v)), other) == member(
            JsonView::Object(m),
            other,
        ),
{
    let now = with_member(m, key, v);
    let i = member_at(m, key);
    lemma_member_at_facts(m, key);
    lemma_member_at_facts(m, other);
    if 0 <= i < m.len() {
        assert forall|k: int| 0 <= k < i implies (#[trigger] now[k]).0 != key by {
            assert(now[k] == m[k]);
        }
        lemma_member_at_is(now, key, i);
    } else {
        assert forall|k: int| 0 <= k < m.len() implies (#[trigger] now[k]).0 != key by {
            assert(now[k] == m[k]);
        }
        lemma_member_at_is(now, key, m.len() as int);
    }
    if other != key {
        let j = member_at(m, other);
        if 0 <= j < m.len() {
            assert(now[j] == m[j]);
            assert forall|k: int| 0 <= k < j implies (#[trigger] now[k]).0 != other by {
                assert(now[k].0 == m[k].0);
            }
            lemma_member_at_is(now, other, j);
        } else {
            assert forall|k: int| 0 <= k < now.len() implies (#[trigger] now[k]).0 != other by {
                if k < m.len() {
                    assert(now[k].0 == m[k].0);
                }
            }
            lemma_member_at_none(now, other);
        }
    }
}

proof fn lemma_member_at_facts(m: Seq<(Seq<char>, JsonView)>, key: Seq<char>)
    ensures
        -1 <= member_at(m, key) < m.len(),
        member_at(m, key) >= 0 ==> m[member_at(m, key)].0 == key,
        forall|k: int|
            0 <= k < m.len() && (member_at(m, key) < 0 || k < member_at(m, key)) ==> (
            #[trigger] m[k]).0 != key,
    decreases m.len(),
{
    if m.len() > 0 {
        let init = m.drop_last();
        lemma_member_at_facts(init, key);
        assert forall|k: int|
            0 <= k < m.len() && (member_at(m, key) < 0 || k < member_at(m, key)) implies (
        #[trigger] m[k]).0 != key by {
            if k < init.len() {
                assert(m[k] == init[k]);
            }
        }
    }
}

fn find_member(m: &Vec<(String, Json)>, key: &str) -> (r: Option<usize>)
    ensures
        match r {
            Some(i) => i == member_at(members(m@), key@) && i < m@.len(),
            None => member_at(members(m@), key@) == -1,
        },
{
    let ghost ms = members(m@);
    let mut i: usize = 0;
    while i < m.len()
        invariant
            i <= m.len(),
            ms == members(m@),
            forall|k: int| 0 <= k < i ==> (#[trigger] ms[k]).0 != key@,
        decreases m.len() - i,
    {
        assert(ms[i as int].0 == m@[i as int].0@);
        if str_eq(m[i].0.as_str(), key) {
            proof {
                lemma_member_at_is(ms, key@, i as int);
            }
            return Some(i);
        }
        i += 1;
    }
    proof {
        lemma_member_at_none(ms, key@);
    }
    None
}

fn set_member(m: &mut Vec<(String, Json)>, key: &str, v: Json)
    ensures
        members(final(m)@) == with_member(members(old(m)@), key@, v.shape()),
{
    let ghost before = m@;
    let ghost shape = v.shape();
    match find_member(m, key) {
        Some(i) => {
            m.set(i, (key.to_owned(), v));
            assert(members(m@) =~= members(before).update(i as int, (key@, shape)));
        },
        None => {
            m.push((key.to_owned(), v));
            assert(members(m@) =~= members(before).push((key@, shape)));
        },
    }
}

/// Takes a member out, or makes it where it is absent. Put back at the same place,
/// it is set.
fn take_member(m: &mut Vec<(String, Json)>, key: &str, d: Json) -> (r: (usize, Json))
    ensures
        r.1.shape() == member_or(members(old(m)@), key@, d.shape()),
        r.0 <= final(m)@.len(),
        forall|v: JsonView|
            members(final(m)@).insert(r.0 as int, (key@, v)) == #[trigger] with_member(
                members(old(m)@),
                key@,
                v,
            ),
{
    let ghost before = members(m@);
    let ghost was = m@;
    match find_member(m, key) {
        Some(i) => {
            let (k, v) = m.remove(i);
            proof {
                assert(before[i as int] == (was[i as int].0@, was[i as int].1.shape()));
                assert(members(m@) =~= before.remove(i as int));
                assert forall|x: JsonView|
                    members(m@).insert(i as int, (key@, x)) == #[trigger] with_member(before, key@, x) by {
                    assert(members(m@).insert(i as int, (key@, x)) =~= before.update(
                        i as int,
                        (key@, x),
                    ));
                }
            }
            (i, v)
        },
        None => {
            let n: usize = m.len();
            proof {
                assert forall|x: JsonView|
                    members(m@).insert(n as int, (key@, x)) == #[trigger] with_member(before, key@, x) by {
                    assert(members(m@).insert(n as int, (key@, x)) =~= before.push((key@, x)));
                }
            }
            (n, d)
        },
    }
}

fn put_back(m: &mut Vec<(String, Json)>, at: usize, key: &str, v: Json)
    requires
        at <= old(m)@.len(),
    ensures
        members(final(m)@) == members(old(m)@).insert(at as int, (key@, v.shape())),
{
    let ghost before = m@;
    let ghost shape = v.shape();
    m.insert(at, (key.to_owned(), v));
    assert(members(m@) =~= members(before).insert(at as int, (key@, shape)));
}

fn no_members() -> (r: Json)
    ensures
        r.shape() == empty_object(),
{
    let v: Vec<(String, Json)> = Vec::new();
    let j = Json::Object(v);
    assert(j.shape()->Object_0 =~= Seq::<(Seq<char>, JsonView)>::empty());
    j
}

// ── The section ──────────────────────────────────────────────────────────

/// The section of the server where there was none.
pub open spec fn fresh_section(base_url: Seq<char>) -> JsonView {
    JsonView::Object(
        seq![
            ("npm"@, JsonView::Text("@ai-sdk/openai-compatible"@)),
            ("name"@, JsonView::Text("llama-server (local)"@)),
            ("options"@, JsonView::Object(seq![("baseURL"@, JsonView::Text(base_url))])),
            ("models"@, empty_object()),
        ],
    )
}

fn new_section(base_url: &str) -> (r: Json)
    ensures
        r.shape() == fresh_section(base_url@),
{
    let mut o: Vec<(String, Json)> = Vec::new();
    o.push(("baseURL".to_owned(), Json::text(base_url)));
    let opts = Json::Object(o);
    assert(opts.shape()->Object_0 =~= seq![("baseURL"@, JsonView::Text(base_url@))]);
    let mut m: Vec<(String, Json)> = Vec::new();
    m.push(("npm".to_owned(), Json::text("@ai-sdk/openai-compatible")));
    m.push(("name".to_owned(), Json::text("llama-server (local)")));
    m.push(("options".to_owned(), opts));
    m.push(("models".to_owned(), no_members()));
    let j = Json::Object(m);
    assert(j.shape()->Object_0 =~= fresh_section(base_url@)->Object_0);
    j
}

/// The members of the section brought up to date, or why they cannot be.
pub open spec fn section_members(m: Seq<(Seq<char>, JsonView)>, base_url: Seq<char>) -> Result<
    Seq<(Seq<char>, JsonView)>,
    Seq<char>,
> {
    let named = with_member(
        with_member(m, "npm"@, JsonView::Text("@ai-sdk/openai-compatible"@)),
        "name"@,
        JsonView::Text("llama-server (local)"@),
    );
    match member_or(named, "options"@, empty_object()) {
        JsonView::Object(o) => {
            let set = with_member(
                named,
                "options"@,
                JsonView::Object(with_member(o, "baseURL"@, JsonView::Text(base_url))),
            );
            Ok(with_member(set, "models"@, member_or(set, "models"@, empty_object())))
        },
        _ => Err("options is not an object"@),
    }
}

/// The providers with the section of the server brought up to date.
pub open spec fn provider_members(m: Seq<(Seq<char>, JsonView)>, base_url: Seq<char>) -> Result<
    Seq<(Seq<char>, JsonView)>,
    Seq<char>,
> {
    match member_or(m, "llama.cpp"@, fresh_section(base_url)) {
        JsonView::Object(s) => match section_members(s, base_url) {
            Ok(now) => Ok(with_member(m, "llama.cpp"@, JsonView::Object(now))),
            Err(e) => Err(e),
        },
        _ => Err("provider.llama.cpp is not an object"@),
    }
}

/// A configuration with the section of the server brought up to date, or why it
/// cannot be.
pub open spec fn with_section(v: JsonView, base_url: Seq<char>) -> Result<JsonView, Seq<char>> {
    match v {
        JsonView::Object(m) => match member_or(m, "provider"@, empty_object()) {
            JsonView::Object(p) => match provider_members(p, base_url) {
                Ok(now) => Ok(JsonView::Object(with_member(m, "provider"@, JsonView::Object(now)))),
                Err(e) => Err(e),
            },
            _ => Err("provider is not an object"@),
        },
        _ => Err("top-level is not an object"@),
    }
}

fn update_section(v: Vec<(String, Json)>, base_url: &str) -> (r: Result<Vec<(String, Json)>, String>)
    ensures
        match r {
            Ok(m) => section_members(members(v@), base_url@) == Ok::<
                Seq<(Seq<char>, JsonView)>,
                Seq<char>,
            >(members(m@)),
            Err(e) => section_members(members(v@), base_url@) == Err::<
                Seq<(Seq<char>, JsonView)>,
                Seq<char>,
            >(e@),
        },
{
    let mut m = v;
    set_member(&mut m, "npm", Json::text("@ai-sdk/openai-compatible"));
    set_member(&mut m, "name", Json::text("llama-server (local)"));
    let ghost named = members(m@);
    let (at, options) = take_member(&mut m, "options", no_members());
    match options {
        Json::Object(o) => {
            let mut opts = o;
            proof {
                lemma_object_shape(o);
            }
            set_member(&mut opts, "baseURL", Json::text(base_url));
            proof {
                lemma_object_shape(opts);
            }
            put_back(&mut m, at, "options", Json::Object(opts));
            let (at2, models) = take_member(&mut m, "models", no_members());
            put_back(&mut m, at2, "models", models);
            Ok(m)
        },
        _ => Err("options is not an object".to_owned()),
    }
}

/// Brings the section of the server up to date: the package, the name and the
/// address are set, and there is a list of models. Nothing else changes.
pub fn ensure_provider_section(v: Json, base_url: &str) -> (r: Result<Json, String>)
    ensures
        match r {
            Ok(j) => with_section(v.shape(), base_url@) == Ok::<JsonView, Seq<char>>(j.shape()),
            Err(e) => with_section(v.shape(), base_url@) == Err::<JsonView, Seq<char>>(e@),
        },
{
    let mut top = match v {
        Json::Object(m) => m,
        _ => return Err("top-level is not an object".to_owned()),
    };
    proof {
        lemma_object_shape(top);
    }
    let (at, provider) = take_member(&mut top, "provider", no_members());
    let mut ps = match provider {
        Json::Object(m) => m,
        _ => return Err("provider is not an object".to_owned()),
    };
    proof {
        lemma_object_shape(ps);
    }
    let (at2, section) = take_member(&mut ps, "llama.cpp", new_section(base_url));
    let s = match section {
        Json::Object(m) => m,
        _ => return Err("provider.llama.cpp is not an object".to_owned()),
    };
    proof {
        lemma_object_shape(s);
    }
    match update_section(s, base_url) {
        Ok(now) => {
            proof {
                lemma_object_shape(now);
            }
            put_back(&mut ps, at2, "llama.cpp", Json::Object(now));
            proof {
                lemma_object_shape(ps);
            }
            put_back(&mut top, at, "provider", Json::Object(ps));
            proof {
                lemma_object_shape(top);
            }
            Ok(Json::Object(top))
        },
        Err(e) => Err(e),
    }
}

/// The section of the server in a configuration.
pub open spec fn section_of(v: JsonView) -> Option<JsonView> {
    match member(v, "provider"@) {
        Some(p) => member(p, "llama.cpp"@),
        None => None,
    }
}

/// The address in a section.
pub open spec fn url_of(section: JsonView) -> Option<JsonView> {
    match member(section, "options"@) {
        Some(o) => member(o, "baseURL"@),
        None => None,
    }
}

/// Bringing the section up to date keeps every other key of the file and every
/// other provider.
pub proof fn law_section_keeps_the_rest(v: JsonView, base_url: Seq<char>, key: Seq<char>, provider: Seq<char>)
    requires
        with_section(v, base_url) is Ok,
        key != "provider"@,
        provider != "llama.cpp"@,
    ensures
        member(with_section(v, base_url)->Ok_0, key) == member(v, key),
        member(v, "provider"@) is Some ==> member(
            member(with_section(v, base_url)->Ok_0, "provider"@)->0,
            provider,
        ) == member(member(v, "provider"@)->0, provider),
{
    let m = v->Object_0;
    let p = member_or(m, "provider"@, empty_object())->Object_0;
    let now = provider_members(p, base_url)->Ok_0;
    lemma_with_member(m, "provider"@, JsonView::Object(now), key);
    let s = member_or(p, "llama.cpp"@, fresh_section(base_url))->Object_0;
    let updated = section_members(s, base_url)->Ok_0;
    lemma_with_member(p, "llama.cpp"@, JsonView::Object(updated), provider);
}

/// The section then names the address it was given, whatever it named before, and
/// has a list of models.
pub proof fn law_section_names_the_address(v: JsonView, base_url: Seq<char>)
    requires
        with_section(v, base_url) is Ok,
    ensures
        ({
            let s = section_of(with_section(v, base_url)->Ok_0);
            &&& s is Some
            &&& url_of(s->0) == Some(JsonView::Text(base_url))
            &&& member(s->0, "npm"@) == Some(JsonView::Text("@ai-sdk/openai-compatible"@))
            &&& member(s->0, "name"@) == Some(JsonView::Text("llama-server (local)"@))
            &&& member(s->0, "models"@) is Some
        }),
{
    let m = v->Object_0;
    let p = member_or(m, "provider"@, empty_object())->Object_0;
    let now = provider_members(p, base_url)->Ok_0;
    lemma_with_member(m, "provider"@, JsonView::Object(now), "provider"@);
    let s = member_or(p, "llama.cpp"@, fresh_section(base_url))->Object_0;
    let updated = section_members(s, base_url)->Ok_0;
    lemma_with_member(p, "llama.cpp"@, JsonView::Object(updated), "llama.cpp"@);
    let npm = JsonView::Text("@ai-sdk/openai-compatible"@);
    let name = JsonView::Text("llama-server (local)"@);
    let a = with_member(s, "npm"@, npm);
    let b = with_member(a, "name"@, name);
    let o = member_or(b, "options"@, empty_object())->Object_0;
    let opts = JsonView::Object(with_member(o, "baseURL"@, JsonView::Text(base_url)));
    let c = with_member(b, "options"@, opts);
    let models = member_or(c, "models"@, empty_object());
    assert(updated == with_member(c, "models"@, models));
    lemma_keys_differ();
    lemma_with_member(s, "npm"@, npm, "npm"@);
    lemma_with_member(a, "name"@, name, "npm"@);
    lemma_with_member(b, "options"@, opts, "npm"@);
    lemma_with_member(b, "options"@, opts, "name"@);
    lemma_with_member(c, "models"@, models, "npm"@);
    lemma_with_member(c, "models"@, models, "name"@);
    lemma_with_member(c, "models"@, models, "options"@);
    lemma_with_member(o, "baseURL"@, JsonView::Text(base_url), "baseURL"@);
}

pub proof fn lemma_keys_differ()
    ensures
        "npm"@ != "name"@,
        "npm"@ != "options"@,
        "npm"@ != "models"@,
        "name"@ != "options"@,
        "name"@ != "models"@,
        "options"@ != "models"@,
{
    reveal_strlit("npm");
    reveal_strlit("name");
    reveal_strlit("options");
    reveal_strlit("models");
    assert("npm"@.len() == 3 && "name"@.len() == 4 && "options"@.len() == 7 && "models"@.len() == 6);
}

// ── The models ───────────────────────────────────────────────────────────

/// The last preset with the id, or -1.
pub open spec fn last_preset_at(all: Seq<Preset>, id: Seq<char>) -> int
    decreases all.len(),
{
    if all.len() == 0 {
        -1
    } else if all.last().id@ == id {
        all.len() - 1
    } else {
        last_preset_at(all.drop_last(), id)
    }
}

/// A context that a header names; 0 is none.
pub open spec fn known_ctx(t: Option<u32>) -> Option<u32> {
    if t == Some(0u32) {
        None
    } else {
        t
    }
}

/// The entries of the presets that are wanted; an id without a preset has none.
pub open spec fn model_entries(ids: Seq<Seq<char>>, all: Seq<Preset>, trained: Seq<Option<u32>>) -> Seq<
    (Seq<char>, JsonView),
>
    decreases ids.len(),
{
    if ids.len() == 0 {
        Seq::empty()
    } else {
        let before = model_entries(ids.drop_last(), all, trained);
        let at = last_preset_at(all, ids.last());
        if at >= 0 {
            with_member(before, ids.last(), entry_json(all[at], known_ctx(trained[at])))
        } else {
            before
        }
    }
}

fn find_last_preset(all: &[Preset], id: &str) -> (r: Option<usize>)
    ensures
        match r {
            Some(i) => i == last_preset_at(all@, id@) && i < all@.len(),
            None => last_preset_at(all@, id@) == -1,
        },
{
    let mut i: usize = all.len();
    assert(all@.take(i as int) =~= all@);
    while i > 0
        invariant
            i <= all@.len(),
            last_preset_at(all@, id@) == last_preset_at(all@.take(i as int), id@),
        decreases i,
    {
        proof {
            assert(all@.take(i as int).last() == all@[i - 1]);
            assert(all@.take(i as int).drop_last() =~= all@.take(i - 1));
        }
        if str_eq(all[i - 1].id.as_str(), id) {
            return Some(i - 1);
        }
        i -= 1;
    }
    None
}

fn entries_for(ids: &[String], all: &[Preset], trained: &[Option<u32>]) -> (r: Vec<(String, Json)>)
    requires
        trained@.len() == all@.len(),
    ensures
        members(r@) == model_entries(strs(ids@), all@, trained@),
{
    let ghost is = strs(ids@);
    let mut out: Vec<(String, Json)> = Vec::new();
    let mut i: usize = 0;
    assert(is.take(0) =~= Seq::<Seq<char>>::empty());
    assert(members(out@) =~= model_entries(is.take(0), all@, trained@));
    while i < ids.len()
        invariant
            i <= ids.len(),
            is == strs(ids@),
            trained@.len() == all@.len(),
            members(out@) == model_entries(is.take(i as int), all@, trained@),
        decreases ids.len() - i,
    {
        proof {
            assert(is.take(i + 1).drop_last() =~= is.take(i as int));
            assert(is.take(i + 1).last() == ids@[i as int]@);
        }
        if let Some(at) = find_last_preset(all, ids[i].as_str()) {
            let known: Option<u32> = match trained[at] {
                Some(t) => if t > 0 {
                    Some(t)
                } else {
                    None
                },
                None => None,
            };
            let entry = preset_to_opencode_model(&all[at], known);
            set_member(&mut out, ids[i].as_str(), entry);
        }
        i += 1;
    }
    assert(is.take(ids@.len() as int) =~= is);
    out
}

/// A configuration with its list of models replaced, or why it cannot be.
pub open spec fn with_models(v: JsonView, models: Seq<(Seq<char>, JsonView)>) -> Result<JsonView, Seq<char>> {
    let m = v->Object_0;
    let p = member_or(m, "provider"@, empty_object())->Object_0;
    let s = member_or(p, "llama.cpp"@, empty_object())->Object_0;
    match member_or(s, "models"@, JsonView::Null) {
        JsonView::Object(_) => Ok(
            JsonView::Object(
                with_member(
                    m,
                    "provider"@,
                    JsonView::Object(
                        with_member(
                            p,
                            "llama.cpp"@,
                            JsonView::Object(with_member(s, "models"@, JsonView::Object(models))),
                        ),
                    ),
                ),
            ),
        ),
        _ => Err("provider.llama.cpp.models is not an object"@),
    }
}

/// A configuration with the section of the server up to date and one entry for
/// each preset that is wanted, or why it cannot be.
pub open spec fn merged(
    v: JsonView,
    base_url: Seq<char>,
    ids: Seq<Seq<char>>,
    all: Seq<Preset>,
    trained: Seq<Option<u32>>,
) -> Result<JsonView, Seq<char>> {
    match with_section(v, base_url) {
        Ok(now) => with_models(now, model_entries(ids, all, trained)),
        Err(e) => Err(e),
    }
}

fn replace_models(v: Json, models: Vec<(String, Json)>) -> (r: Result<Json, String>)
    requires
        v.shape() is Object,
        member_or(v.shape()->Object_0, "provider"@, empty_object()) is Object,
        member_or(
            member_or(v.shape()->Object_0, "provider"@, empty_object())->Object_0,
            "llama.cpp"@,
            empty_object(),
        ) is Object,
    ensures
        match r {
            Ok(j) => with_models(v.shape(), members(models@)) == Ok::<JsonView, Seq<char>>(j.shape()),
            Err(e) => with_models(v.shape(), members(models@)) == Err::<JsonView, Seq<char>>(e@),
        },
{
    let mut top = match v {
        Json::Object(m) => m,
        _ => return Err("top-level is not an object".to_owned()),
    };
    proof {
        lemma_object_shape(top);
    }
    let (at, provider) = take_member(&mut top, "provider", no_members());
    let mut ps = match provider {
        Json::Object(m) => m,
        _ => return Err("provider is not an object".to_owned()),
    };
    proof {
        lemma_object_shape(ps);
    }
    let (at2, section) = take_member(&mut ps, "llama.cpp", no_members());
    let mut s = match section {
        Json::Object(m) => m,
        _ => return Err("provider.llama.cpp is not an object".to_owned()),
    };
    proof {
        lemma_object_shape(s);
        assert(Json::Null.shape() == JsonView::Null);
    }
    let (at3, old_models) = take_member(&mut s, "models", Json::Null);
    match old_models {
        Json::Object(_) => {
            proof {
                lemma_object_shape(models);
            }
            put_back(&mut s, at3, "models", Json::Object(models));
            proof {
                lemma_object_shape(s);
            }
            put_back(&mut ps, at2, "llama.cpp", Json::Object(s));
            proof {
                lemma_object_shape(ps);
            }
            put_back(&mut top, at, "provider", Json::Object(ps));
            proof {
                lemma_object_shape(top);
            }
            Ok(Json::Object(top))
        },
        _ => Err("provider.llama.cpp.models is not an object".to_owned()),
    }
}

pub proof fn lemma_section_is_there(v: JsonView, base_url: Seq<char>)
    requires
        with_section(v, base_url) is Ok,
    ensures
        ({
            let now = with_section(v, base_url)->Ok_0;
            let p = member_or(now->Object_0, "provider"@, empty_object());
            &&& now is Object
            &&& p is Object
            &&& member_or(p->Object_0, "llama.cpp"@, empty_object()) is Object
        }),
{
    let m = v->Object_0;
    let p = member_or(m, "provider"@, empty_object())->Object_0;
    let now = provider_members(p, base_url)->Ok_0;
    lemma_with_member(m, "provider"@, JsonView::Object(now), "provider"@);
    let s = member_or(p, "llama.cpp"@, fresh_section(base_url))->Object_0;
    let updated = section_members(s, base_url)->Ok_0;
    lemma_with_member(p, "llama.cpp"@, JsonView::Object(updated), "llama.cpp"@);
}

/// Merges the presets that are wanted into a configuration. `trained` holds, for
/// each preset, the context that its model was trained with.
pub fn merge_opencode(v: Json, base_url: &str, ids: &[String], all: &[Preset], trained: &[Option<u32>]) -> (r: Result<
    Json,
    String,
>)
    requires
        trained@.len() == all@.len(),
    ensures
        match r {
            Ok(j) => merged(v.shape(), base_url@, strs(ids@), all@, trained@) == Ok::<
                JsonView,
                Seq<char>,
            >(j.shape()),
            Err(e) => merged(v.shape(), base_url@, strs(ids@), all@, trained@) == Err::<
                JsonView,
                Seq<char>,
            >(e@),
        },
{
    let ghost before = v.shape();
    match ensure_provider_section(v, base_url) {
        Ok(now) => {
            proof {
                lemma_section_is_there(before, base_url@);
            }
            let models = entries_for(ids, all, trained);
            replace_models(now, models)
        },
        Err(e) => Err(e),
    }
}

/// What a configuration file holds: nothing, or blank, is an empty object.
pub open spec fn config_in(text: Seq<char>) -> Result<JsonView, Seq<char>> {
    if trim(text).len() == 0 {
        Ok(empty_object())
    } else {
        json_read(text)
    }
}

// ── Reading back ─────────────────────────────────────────────────────────

/// Whether the text of a file that was saved holds what it was to hold: read again,
/// it lists exactly the wanted ids that have a preset, names the address, and says
/// of everything else what it said before.
pub open spec fn saves(
    out: Seq<char>,
    before: JsonView,
    base_url: Seq<char>,
    ids: Seq<Seq<char>>,
    all: Seq<Preset>,
) -> bool {
    let now = json_value(out);
    &&& trim(out).len() > 0
    &&& now is Some
    &&& forall|id: Seq<char>| #[trigger]
        ids_in(now).contains(id) == (ids.contains(id) && last_preset_at(all, id) >= 0)
    &&& section_of(now->0) is Some
    &&& url_of(section_of(now->0)->0) == Some(JsonView::Text(base_url))
    &&& forall|path: Seq<Seq<char>>|
        elsewhere(path) ==> #[trigger] agree_at(before, now->0, path)
}

/// Keys that lead past the section of the server.
pub open spec fn elsewhere(path: Seq<Seq<char>>) -> bool {
    path.len() > 0 && (path[0] != "provider"@ || (path.len() > 1 && path[1] != "llama.cpp"@))
}

proof fn lemma_nothing_is_tidy()
    ensures
        tidy(empty_object(), max_depth()),
{
}

proof fn lemma_tidy_with_member(m: Seq<(Seq<char>, JsonView)>, key: Seq<char>, v: JsonView, depth: nat)
    requires
        tidy(JsonView::Object(m), depth),
        tidy(v, (depth - 1) as nat),
    ensures
        tidy(JsonView::Object(with_member(m, key, v)), depth),
{
    let now = with_member(m, key, v);
    lemma_member_at_facts(m, key);
    let whole = JsonView::Object(m);
    assert(whole->Object_0 == m);
    assert forall|i: int| 0 <= i < now.len() implies tidy((#[trigger] now[i]).1, (depth - 1) as nat) by {
        if i < m.len() {
            assert(tidy(whole->Object_0[i].1, (depth - 1) as nat));
        }
    }
    assert forall|i: int, k: int| 0 <= i < k < now.len() implies (#[trigger] now[i]).0 != (
    #[trigger] now[k]).0 by {
        assert(now[i].0 == m[i].0);
        if k < m.len() {
            assert(now[k].0 == m[k].0);
        }
    }
}

proof fn lemma_tidy_member(m: Seq<(Seq<char>, JsonView)>, key: Seq<char>, d: JsonView, depth: nat)
    requires
        tidy(JsonView::Object(m), depth),
        tidy(d, (depth - 1) as nat),
    ensures
        tidy(member_or(m, key, d), (depth - 1) as nat),
{
    let i = member_at(m, key);
    if 0 <= i < m.len() {
        assert(tidy(m[i].1, (depth - 1) as nat));
    }
}

/// A document that is tidy at a depth is tidy at every greater one.
proof fn lemma_tidy_deeper(v: JsonView, d: nat, e: nat)
    requires
        tidy(v, d),
        d <= e,
    ensures
        tidy(v, e),
    decreases d,
{
    match v {
        JsonView::List(l) => {
            assert forall|i: int| 0 <= i < l.len() implies tidy(#[trigger] l[i], (e - 1) as nat) by {
                lemma_tidy_deeper(l[i], (d - 1) as nat, (e - 1) as nat);
            }
        },
        JsonView::Object(m) => {
            assert forall|i: int| 0 <= i < m.len() implies tidy((#[trigger] m[i]).1, (e - 1) as nat) by {
                lemma_tidy_deeper(m[i].1, (d - 1) as nat, (e - 1) as nat);
            }
        },
        _ => {},
    }
}

proof fn lemma_fresh_is_tidy(base_url: Seq<char>)
    ensures
        tidy(fresh_section(base_url), 2),
{
    reveal_with_fuel(tidy, 2);
    lemma_keys_differ();
    let opts = JsonView::Object(seq![("baseURL"@, JsonView::Text(base_url))]);
    assert(tidy(opts, 1));
    assert(tidy(empty_object(), 1));
}

proof fn lemma_entry_is_tidy(p: Preset, trained: Option<u32>)
    ensures
        tidy(entry_json(p, trained), 2),
{
    reveal_with_fuel(tidy, 2);
    reveal_strlit("context");
    reveal_strlit("input");
    reveal_strlit("output");
    reveal_strlit("name");
    reveal_strlit("reasoning");
    reveal_strlit("limit");
    assert("context"@.len() == 7 && "input"@.len() == 5 && "output"@.len() == 6);
    assert("name"@.len() == 4 && "reasoning"@.len() == 9 && "limit"@.len() == 5);
    let limit = limit_json(usable_ctx(p.ctx_size, p.parallel, trained));
    assert(tidy(limit, 1));
}

proof fn lemma_entries_are_tidy(ids: Seq<Seq<char>>, all: Seq<Preset>, trained: Seq<Option<u32>>)
    ensures
        tidy(JsonView::Object(model_entries(ids, all, trained)), 3),
    decreases ids.len(),
{
    if ids.len() > 0 {
        lemma_entries_are_tidy(ids.drop_last(), all, trained);
        let at = last_preset_at(all, ids.last());
        if at >= 0 {
            lemma_entry_is_tidy(all[at], known_ctx(trained[at]));
            lemma_tidy_with_member(
                model_entries(ids.drop_last(), all, trained),
                ids.last(),
                entry_json(all[at], known_ctx(trained[at])),
                3,
            );
        }
    }
}

proof fn lemma_section_is_tidy(v: JsonView, base_url: Seq<char>)
    requires
        tidy(v, max_depth()),
        with_section(v, base_url) is Ok,
    ensures
        tidy(with_section(v, base_url)->Ok_0, max_depth()),
{
    let m = v->Object_0;
    assert(tidy(empty_object(), 126));
    assert(tidy(empty_object(), 124));
    lemma_tidy_member(m, "provider"@, empty_object(), 127);
    let p = member_or(m, "provider"@, empty_object())->Object_0;
    lemma_fresh_is_tidy(base_url);
    lemma_tidy_deeper(fresh_section(base_url), 2, 125);
    lemma_tidy_member(p, "llama.cpp"@, fresh_section(base_url), 126);
    let s = member_or(p, "llama.cpp"@, fresh_section(base_url))->Object_0;
    let npm = JsonView::Text("@ai-sdk/openai-compatible"@);
    let name = JsonView::Text("llama-server (local)"@);
    lemma_tidy_with_member(s, "npm"@, npm, 125);
    let a = with_member(s, "npm"@, npm);
    lemma_tidy_with_member(a, "name"@, name, 125);
    let b = with_member(a, "name"@, name);
    lemma_tidy_member(b, "options"@, empty_object(), 125);
    let o = member_or(b, "options"@, empty_object())->Object_0;
    lemma_tidy_with_member(o, "baseURL"@, JsonView::Text(base_url), 124);
    let opts = JsonView::Object(with_member(o, "baseURL"@, JsonView::Text(base_url)));
    lemma_tidy_with_member(b, "options"@, opts, 125);
    let c = with_member(b, "options"@, opts);
    lemma_tidy_member(c, "models"@, empty_object(), 125);
    let models = member_or(c, "models"@, empty_object());
    lemma_tidy_with_member(c, "models"@, models, 125);
    let updated = section_members(s, base_url)->Ok_0;
    assert(updated == with_member(c, "models"@, models));
    lemma_tidy_with_member(p, "llama.cpp"@, JsonView::Object(updated), 126);
    let now = provider_members(p, base_url)->Ok_0;
    lemma_tidy_with_member(m, "provider"@, JsonView::Object(now), 127);
}

proof fn lemma_merged_is_tidy(
    v: JsonView,
    base_url: Seq<char>,
    ids: Seq<Seq<char>>,
    all: Seq<Preset>,
    trained: Seq<Option<u32>>,
)
    requires
        tidy(v, max_depth()),
        merged(v, base_url, ids, all, trained) is Ok,
    ensures
        tidy(merged(v, base_url, ids, all, trained)->Ok_0, max_depth()),
        merged(v, base_url, ids, all, trained)->Ok_0 is Object,
{
    lemma_section_is_tidy(v, base_url);
    lemma_section_is_there(v, base_url);
    let now = with_section(v, base_url)->Ok_0;
    let models = model_entries(ids, all, trained);
    lemma_entries_are_tidy(ids, all, trained);
    lemma_tidy_deeper(JsonView::Object(models), 3, 124);
    let m = now->Object_0;
    assert(tidy(empty_object(), 126));
    assert(tidy(empty_object(), 125));
    lemma_tidy_member(m, "provider"@, empty_object(), 127);
    let p = member_or(m, "provider"@, empty_object())->Object_0;
    lemma_tidy_member(p, "llama.cpp"@, empty_object(), 126);
    let s = member_or(p, "llama.cpp"@, empty_object())->Object_0;
    lemma_tidy_with_member(s, "models"@, JsonView::Object(models), 125);
    let s2 = with_member(s, "models"@, JsonView::Object(models));
    lemma_tidy_with_member(p, "llama.cpp"@, JsonView::Object(s2), 126);
    let p2 = with_member(p, "llama.cpp"@, JsonView::Object(s2));
    lemma_tidy_with_member(m, "provider"@, JsonView::Object(p2), 127);
}

/// The keys that lead to the address.
spec fn url_path() -> Seq<Seq<char>> {
    seq!["provider"@, "llama.cpp"@, "options"@, "baseURL"@]
}

/// The keys that lead to a model.
spec fn model_path(id: Seq<char>) -> Seq<Seq<char>> {
    seq!["provider"@, "llama.cpp"@, "models"@, id]
}

proof fn lemma_reach_four(v: JsonView, a: Seq<char>, b: Seq<char>, c: Seq<char>, d: Seq<char>)
    ensures
        reach(v, seq![a, b, c, d]) == match member(v, a) {
            Some(x) => match member(x, b) {
                Some(y) => match member(y, c) {
                    Some(z) => member(z, d),
                    None => None,
                },
                None => None,
            },
            None => None,
        },
{
    reveal_with_fuel(reach, 5);
    assert(seq![a, b, c, d].skip(1) =~= seq![b, c, d]);
    assert(seq![b, c, d].skip(1) =~= seq![c, d]);
    assert(seq![c, d].skip(1) =~= seq![d]);
    assert(seq![d].skip(1) =~= Seq::<Seq<char>>::empty());
}

proof fn lemma_listed_is_reached(v: JsonView, id: Seq<char>)
    ensures
        ids_in(Some(v)).contains(id) == (reach(v, model_path(id)) is Some),
{
    lemma_reach_four(v, "provider"@, "llama.cpp"@, "models"@, id);
    match section_of(v) {
        Some(s) => match member(s, "models"@) {
            Some(JsonView::Object(m)) => {
                lemma_member_at_facts(m, id);
                let list = ids_in(Some(v));
                if list.contains(id) {
                    let k = choose|k: int| 0 <= k < list.len() && list[k] == id;
                    assert(m[k].0 == id);
                }
                if member_at(m, id) >= 0 {
                    assert(list[member_at(m, id)] == id);
                }
            },
            _ => {},
        },
        None => {},
    }
}

/// A configuration that was merged names the address.
proof fn lemma_merged_names_the_address(
    v: JsonView,
    base_url: Seq<char>,
    ids: Seq<Seq<char>>,
    all: Seq<Preset>,
    trained: Seq<Option<u32>>,
)
    requires
        merged(v, base_url, ids, all, trained) is Ok,
    ensures
        reach(merged(v, base_url, ids, all, trained)->Ok_0, url_path()) == Some(JsonView::Text(base_url)),
{
    law_section_names_the_address(v, base_url);
    lemma_section_is_there(v, base_url);
    let now = with_section(v, base_url)->Ok_0;
    let models = JsonView::Object(model_entries(ids, all, trained));
    let m = now->Object_0;
    let p = member_or(m, "provider"@, empty_object())->Object_0;
    let s = member_or(p, "llama.cpp"@, empty_object())->Object_0;
    let s2 = with_member(s, "models"@, models);
    let p2 = with_member(p, "llama.cpp"@, JsonView::Object(s2));
    lemma_keys_differ();
    lemma_with_member(s, "models"@, models, "options"@);
    lemma_with_member(p, "llama.cpp"@, JsonView::Object(s2), "llama.cpp"@);
    lemma_with_member(m, "provider"@, JsonView::Object(p2), "provider"@);
    lemma_reach_four(
        merged(v, base_url, ids, all, trained)->Ok_0,
        "provider"@,
        "llama.cpp"@,
        "options"@,
        "baseURL"@,
    );
}

/// Merging changes nothing outside the section of the server.
pub proof fn law_merge_keeps_the_rest(
    v: JsonView,
    base_url: Seq<char>,
    ids: Seq<Seq<char>>,
    all: Seq<Preset>,
    trained: Seq<Option<u32>>,
    path: Seq<Seq<char>>,
)
    requires
        merged(v, base_url, ids, all, trained) is Ok,
        elsewhere(path),
    ensures
        reach(merged(v, base_url, ids, all, trained)->Ok_0, path) == reach(v, path),
{
    reveal_with_fuel(reach, 3);
    lemma_section_is_there(v, base_url);
    let now = with_section(v, base_url)->Ok_0;
    let models = JsonView::Object(model_entries(ids, all, trained));
    let m0 = v->Object_0;
    let p0 = member_or(m0, "provider"@, empty_object())->Object_0;
    let s0 = member_or(p0, "llama.cpp"@, fresh_section(base_url))->Object_0;
    let s1 = section_members(s0, base_url)->Ok_0;
    let p1 = with_member(p0, "llama.cpp"@, JsonView::Object(s1));
    let m1 = with_member(m0, "provider"@, JsonView::Object(p1));
    assert(now == JsonView::Object(m1));
    lemma_with_member(m0, "provider"@, JsonView::Object(p1), path[0]);
    let p = member_or(m1, "provider"@, empty_object())->Object_0;
    let s = member_or(p, "llama.cpp"@, empty_object())->Object_0;
    let s2 = with_member(s, "models"@, models);
    let p2 = with_member(p, "llama.cpp"@, JsonView::Object(s2));
    lemma_with_member(m1, "provider"@, JsonView::Object(p2), path[0]);
    if path[0] == "provider"@ {
        assert(p == p1);
        lemma_with_member(p0, "llama.cpp"@, JsonView::Object(s1), path[1]);
        lemma_with_member(p1, "llama.cpp"@, JsonView::Object(s2), path[1]);
        assert(path.skip(1)[0] == path[1]);
    }
}

proof fn lemma_saves(
    out: Seq<char>,
    v: JsonView,
    base_url: Seq<char>,
    ids: Seq<Seq<char>>,
    all: Seq<Preset>,
    trained: Seq<Option<u32>>,
)
    requires
        merged(v, base_url, ids, all, trained) is Ok,
        out.len() > 0,
        out[0] == '{',
        json_value(out) is Some,
        forall|path: Seq<Seq<char>>| #[trigger]
            agree_at(merged(v, base_url, ids, all, trained)->Ok_0, json_value(out)->0, path),
    ensures
        saves(out, v, base_url, ids, all),
{
    let was = merged(v, base_url, ids, all, trained)->Ok_0;
    let now = json_value(out)->0;
    assert(trim_start(out) == out);
    if trim(out).len() == 0 {
        lemma_blank_is_space(out);
    }
    lemma_merged_names_the_address(v, base_url, ids, all, trained);
    assert(agree_at(was, now, url_path()));
    lemma_reach_four(now, "provider"@, "llama.cpp"@, "options"@, "baseURL"@);
    assert forall|id: Seq<char>| #[trigger]
        ids_in(Some(now)).contains(id) == (ids.contains(id) && last_preset_at(all, id) >= 0) by {
        law_merge_lists_the_wanted(v, base_url, ids, all, trained, id);
        lemma_listed_is_reached(was, id);
        lemma_listed_is_reached(now, id);
        assert(agree_at(was, now, model_path(id)));
    }
    assert forall|path: Seq<Seq<char>>| elsewhere(path) implies #[trigger] agree_at(v, now, path) by {
        law_merge_keeps_the_rest(v, base_url, ids, all, trained, path);
        assert(agree_at(was, now, path));
    }
}

/// A text that trims to nothing begins with a space.
proof fn lemma_blank_is_space(s: Seq<char>)
    requires
        s.len() > 0,
        trim_end(s).len() == 0,
    ensures
        is_space(s[0]),
    decreases s.len(),
{
    if s.len() > 1 {
        lemma_blank_is_space(s.drop_last());
    }
}

/// The text of a configuration file with the wanted presets merged in; the text is
/// empty where there is no file yet. Read again, the text holds what was merged.
pub fn save_opencode_models(
    text: &str,
    base_url: &str,
    ids: &[String],
    all: &[Preset],
    trained: &[Option<u32>],
) -> (r: Result<String, String>)
    requires
        trained@.len() == all@.len(),
    ensures
        match config_in(text@) {
            Err(_) => r is Err && r->Err_0@ == "parse existing config as JSON"@,
            Ok(v) => match merged(v, base_url@, strs(ids@), all@, trained@) {
                Ok(j) => r is Ok && r->Ok_0@ == json_pretty(j) + "\n"@,
                Err(e) => r is Err && r->Err_0@ == e,
            },
        },
        r matches Ok(out) ==> saves(
            out@,
            config_in(text@)->Ok_0,
            base_url@,
            strs(ids@),
            all@,
        ),
{
    let c = to_chars(text);
    let v = if trimmed(c.as_slice()).len() == 0 {
        no_members()
    } else {
        match parse_json(text) {
            Ok(j) => j,
            Err(_) => return Err("parse existing config as JSON".to_owned()),
        }
    };
    proof {
        lemma_nothing_is_tidy();
    }
    let ghost before = v.shape();
    match merge_opencode(v, base_url, ids, all, trained) {
        Ok(j) => {
            proof {
                lemma_merged_is_tidy(before, base_url@, strs(ids@), all@, trained@);
            }
            let mut out = write_pretty(&j);
            let ghost pretty = out@;
            out.append("\n");
            proof {
                reveal_strlit("\n");
                assert(out@ =~= pretty.push('\n'));
                lemma_saves(out@, before, base_url@, strs(ids@), all@, trained@);
            }
            Ok(out)
        },
        Err(e) => Err(e),
    }
}

/// The ids of the models that a configuration has for the server.
pub open spec fn ids_in(v: Option<JsonView>) -> Seq<Seq<char>> {
    match v {
        Some(j) => match section_of(j) {
            Some(s) => match member(s, "models"@) {
                Some(JsonView::Object(m)) => m.map_values(|p: (Seq<char>, JsonView)| p.0),
                _ => Seq::empty(),
            },
            None => Seq::empty(),
        },
        None => Seq::empty(),
    }
}

fn section_in(v: &Json) -> (r: Option<&Json>)
    ensures
        match r {
            Some(s) => section_of(v.shape()) == Some(s.shape()),
            None => section_of(v.shape()) is None,
        },
{
    match v.get("provider") {
        Some(p) => p.get("llama.cpp"),
        None => None,
    }
}

/// The ids of the models that a configuration has for the server.
pub fn model_ids(v: &Json) -> (r: Vec<String>)
    ensures
        strs(r@) == ids_in(Some(v.shape())),
{
    let mut out: Vec<String> = Vec::new();
    assert(strs(out@) =~= Seq::<Seq<char>>::empty());
    let models = match section_in(v) {
        Some(s) => s.get("models"),
        None => None,
    };
    match models {
        Some(Json::Object(m)) => {
            proof {
                lemma_object_shape(*m);
            }
            let mut i: usize = 0;
            while i < m.len()
                invariant
                    i <= m.len(),
                    out@.len() == i,
                    forall|k: int| 0 <= k < i ==> (#[trigger] out@[k])@ == m@[k].0@,
                decreases m.len() - i,
            {
                out.push(m[i].0.clone());
                i += 1;
            }
            assert(strs(out@) =~= members(m@).map_values(|p: (Seq<char>, JsonView)| p.0));
            out
        },
        _ => out,
    }
}

/// The ids of the models in the text of a configuration file; none where it is
/// blank or no JSON.
pub fn opencode_model_ids(text: &str) -> (r: Vec<String>)
    ensures
        strs(r@) == if trim(text@).len() == 0 {
            Seq::empty()
        } else {
            ids_in(json_value(text@))
        },
{
    let c = to_chars(text);
    if trimmed(c.as_slice()).len() > 0 {
        if let Some(v) = read_json(text) {
            return model_ids(&v);
        }
    }
    let out: Vec<String> = Vec::new();
    assert(strs(out@) =~= Seq::<Seq<char>>::empty());
    out
}

/// Whether a configuration has a section for the server.
pub fn has_section(v: &Json) -> (r: bool)
    ensures
        r == section_of(v.shape()) is Some,
{
    section_in(v).is_some()
}

/// Whether the text of a configuration file has a section for the server.
pub fn detect_opencode_provider(text: &str) -> (r: bool)
    ensures
        r == (trim(text@).len() > 0 && json_value(text@) is Some && section_of(
            json_value(text@)->0,
        ) is Some),
{
    let c = to_chars(text);
    if trimmed(c.as_slice()).len() == 0 {
        return false;
    }
    match read_json(text) {
        Some(v) => has_section(&v),
        None => false,
    }
}

proof fn lemma_entry_keys(ids: Seq<Seq<char>>, all: Seq<Preset>, trained: Seq<Option<u32>>, id: Seq<char>)
    ensures
        (exists|k: int|
            0 <= k < model_entries(ids, all, trained).len() && (#[trigger] model_entries(
                ids,
                all,
                trained,
            )[k]).0 == id) == (ids.contains(id) && last_preset_at(all, id) >= 0),
    decreases ids.len(),
{
    let now = model_entries(ids, all, trained);
    if ids.len() > 0 {
        let init = ids.drop_last();
        let before = model_entries(init, all, trained);
        lemma_entry_keys(init, all, trained, id);
        let last = ids.last();
        let at = last_preset_at(all, last);
        let value = entry_json(all[at], known_ctx(trained[at]));
        assert(ids.contains(id) == (init.contains(id) || last == id)) by {
            if init.contains(id) {
                let k = choose|k: int| 0 <= k < init.len() && init[k] == id;
                assert(ids[k] == id);
            }
            if last == id {
                assert(ids[ids.len() - 1] == id);
            }
            if ids.contains(id) {
                let k = choose|k: int| 0 <= k < ids.len() && ids[k] == id;
                if k < init.len() {
                    assert(init[k] == id);
                }
            }
        }
        if at >= 0 {
            let i = member_at(before, last);
            lemma_member_at_facts(before, last);
            if 0 <= i < before.len() {
                assert(now[i].0 == last);
                assert forall|k: int| 0 <= k < before.len() implies (#[trigger] now[k]).0
                    == before[k].0 by {}
                if exists|k: int| 0 <= k < before.len() && (#[trigger] before[k]).0 == id {
                    let k = choose|k: int| 0 <= k < before.len() && (#[trigger] before[k]).0 == id;
                    assert(now[k].0 == id);
                }
                if exists|k: int| 0 <= k < now.len() && (#[trigger] now[k]).0 == id {
                    let k = choose|k: int| 0 <= k < now.len() && (#[trigger] now[k]).0 == id;
                    assert(before[k].0 == id);
                }
            } else {
                assert(now == before.push((last, value)));
                assert(now[before.len() as int].0 == last);
                if exists|k: int| 0 <= k < before.len() && (#[trigger] before[k]).0 == id {
                    let k = choose|k: int| 0 <= k < before.len() && (#[trigger] before[k]).0 == id;
                    assert(now[k].0 == id);
                }
                if exists|k: int| 0 <= k < now.len() && (#[trigger] now[k]).0 == id {
                    let k = choose|k: int| 0 <= k < now.len() && (#[trigger] now[k]).0 == id;
                    if k < before.len() {
                        assert(before[k].0 == id);
                    }
                }
            }
        }
    }
}

/// A merged configuration lists exactly the wanted ids that have a preset.
pub proof fn law_merge_lists_the_wanted(
    v: JsonView,
    base_url: Seq<char>,
    ids: Seq<Seq<char>>,
    all: Seq<Preset>,
    trained: Seq<Option<u32>>,
    id: Seq<char>,
)
    requires
        merged(v, base_url, ids, all, trained) is Ok,
    ensures
        ids_in(Some(merged(v, base_url, ids, all, trained)->Ok_0)).contains(id) == (ids.contains(id)
            && last_preset_at(all, id) >= 0),
{
    let now = with_section(v, base_url)->Ok_0;
    lemma_section_is_there(v, base_url);
    let models = model_entries(ids, all, trained);
    let m = now->Object_0;
    let p = member_or(m, "provider"@, empty_object())->Object_0;
    let s = member_or(p, "llama.cpp"@, empty_object())->Object_0;
    let s2 = with_member(s, "models"@, JsonView::Object(models));
    let p2 = with_member(p, "llama.cpp"@, JsonView::Object(s2));
    lemma_with_member(s, "models"@, JsonView::Object(models), "models"@);
    lemma_with_member(p, "llama.cpp"@, JsonView::Object(s2), "llama.cpp"@);
    lemma_with_member(m, "provider"@, JsonView::Object(p2), "provider"@);
    let listed = ids_in(Some(merged(v, base_url, ids, all, trained)->Ok_0));
    assert(listed == models.map_values(|q: (Seq<char>, JsonView)| q.0));
    lemma_entry_keys(ids, all, trained, id);
    if listed.contains(id) {
        let k = choose|k: int| 0 <= k < listed.len() && listed[k] == id;
        assert(models[k].0 == id);
    }
    if exists|k: int| 0 <= k < models.len() && (#[trigger] models[k]).0 == id {
        let k = choose|k: int| 0 <= k < models.len() && (#[trigger] models[k]).0 == id;
        assert(listed[k] == id);
    }
}

// ── Environment variables ────────────────────────────────────────────────

/// An address without the path of the API behind it, however often it stands there.
pub open spec fn without_api(url: Seq<char>) -> Seq<char>
    decreases url.len(),
    via without_api_decreases
{
    if ends_with(url, "/v1"@) {
        without_api(url.take(url.len() - "/v1"@.len()))
    } else {
        url
    }
}

#[via_fn]
proof fn without_api_decreases(url: Seq<char>) {
    reveal_strlit("/v1");
}

fn strip_api(c: &[char]) -> (r: &[char])
    ensures
        r@ == without_api(c@),
{
    let mut end: usize = c.len();
    proof {
        reveal_strlit("/v1");
    }
    assert(c@.take(end as int) =~= c@);
    loop
        invariant
            end <= c@.len(),
            "/v1"@.len() == 3,
            without_api(c@) == without_api(c@.take(end as int)),
        decreases end,
    {
        let s = slice_subrange(c, 0, end);
        assert(s@ =~= c@.take(end as int));
        if !has_suffix(s, "/v1") {
            return s;
        }
        assert(s@.take(end - 3) =~= c@.take(end - 3));
        end = end - 3;
    }
}

/// The lines that point a tool at the server: what it is called, how it is
/// launched, the address, and a preset to name.
pub open spec fn env_script(tool: Seq<char>, command: Seq<char>, base: Seq<char>, example: Seq<char>) -> Seq<
    char,
> {
    "# Run this in PowerShell before launching "@ + tool
        + " to use your local llama-server.\r\n$env:ANTHROPIC_BASE_URL = \""@ + base
        + "\"\r\n$env:ANTHROPIC_API_KEY = \"not-needed\"\r\n# Pick a preset id from your presets.ini as the model name, e.g.:\r\n# $env:ANTHROPIC_DEFAULT_SONNET_MODEL = \""@
        + example + "\"\r\n# Then launch: "@ + command + "\r\n"@
}

/// The lines that point a tool at the server, for PowerShell.
pub fn claude_code_env_script(tool: &str, command: &str, base_url: &str, example_id: Option<&str>) -> (r: String)
    ensures
        r@ == env_script(
            tool@,
            command@,
            without_api(base_url@),
            match example_id {
                Some(id) => id@,
                None => "<preset-id>"@,
            },
        ),
{
    let c = to_chars(base_url);
    let mut out: String = "# Run this in PowerShell before launching ".to_owned();
    out.append(tool);
    out.append(" to use your local llama-server.\r\n$env:ANTHROPIC_BASE_URL = \"");
    push_chars(&mut out, strip_api(c.as_slice()));
    out.append(
        "\"\r\n$env:ANTHROPIC_API_KEY = \"not-needed\"\r\n# Pick a preset id from your presets.ini as the model name, e.g.:\r\n# $env:ANTHROPIC_DEFAULT_SONNET_MODEL = \"",
    );
    match example_id {
        Some(id) => {
            out.append(id);
        },
        None => {
            out.append("<preset-id>");
        },
    }
    out.append("\"\r\n# Then launch: ");
    out.append(command);
    out.append("\r\n");
    out
}

} // verus!
