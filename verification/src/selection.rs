//! Lists of presets: which rows a filter leaves, which one is selected, which are
//! measured and which are offered to other tools.
use vstd::prelude::*;
use vstd::set_lib::*;
use vstd::string::*;
use crate::bench::{
    numbers_in, parse_int_list, Mode, Plan, DEFAULT_GEN, DEFAULT_MAX_TOKENS, DEFAULT_REPS,
};
use crate::exec::{find_preset, preset_at};
use crate::decimal::{decimal_read, keeps_short, parse_decimal};
use crate::ini::parse_int;
use crate::integrations::{friendly, friendly_model_name};
use crate::letters::{lowercase, to_lower_text};
use crate::model_scan::{files, FileOption};
use crate::pathname::{file_name, name_in};
use crate::presets::Preset;
use crate::rounding::push_wide;
use crate::text::{
    contains, dec, dec_int, entries, lemma_parse_dec_int, list_has, opt, parse_signed, str_contains,
    str_eq, strs, trim,
};

verus! {

// ── Filtering ────────────────────────────────────────────────────────────

/// Whether a preset passes a filter: an empty one, or one that its id or its model
/// holds, in any case.
pub open spec fn passes(p: Preset, filter: Seq<char>) -> bool {
    filter.len() == 0 || lowered_passes(lowercase(p.id@), lowercase(p.model@), lowercase(filter))
}

/// The same of texts in lower case.
pub open spec fn lowered_passes(id: Seq<char>, model: Seq<char>, query: Seq<char>) -> bool {
    contains(id, query) || contains(model, query)
}

/// Whether a text in lower case, an id or a model, holds a query in lower case.
pub fn matches_lowered(id: &str, model: &str, query: &str) -> (r: bool)
    ensures
        r == lowered_passes(id@, model@, query@),
{
    str_contains(id, query) || str_contains(model, query)
}

/// Whether a preset passes a filter.
pub fn preset_matches(p: &Preset, filter: &str) -> (r: bool)
    ensures
        r == passes(*p, filter@),
{
    if filter.is_empty() {
        return true;
    }
    let query = to_lower_text(filter);
    let id = to_lower_text(p.id.as_str());
    let model = to_lower_text(p.model.as_str());
    matches_lowered(id.as_str(), model.as_str(), query.as_str())
}

/// A row of the list of presets: its id, and its place in the list without a
/// filter.
#[derive(Debug, Clone, PartialEq, Eq)]
pub struct PresetSummary {
    pub id: String,
    pub orig_index: i32,
}

pub open spec fn summary_views(v: Seq<PresetSummary>) -> Seq<(Seq<char>, int)> {
    v.map_values(|s: PresetSummary| (s.id@, s.orig_index as int))
}

/// The rows that a filter leaves.
pub open spec fn summaries(all: Seq<Preset>, filter: Seq<char>) -> Seq<(Seq<char>, int)>
    decreases all.len(),
{
    if all.len() == 0 {
        Seq::empty()
    } else {
        let before = summaries(all.drop_last(), filter);
        if passes(all.last(), filter) {
            before.push((all.last().id@, all.len() - 1))
        } else {
            before
        }
    }
}

/// The rows that a filter leaves.
pub fn preset_summaries(all: &[Preset], filter: &str) -> (r: Vec<PresetSummary>)
    requires
        all@.len() <= i32::MAX,
    ensures
        summary_views(r@) == summaries(all@, filter@),
{
    let mut out: Vec<PresetSummary> = Vec::new();
    let mut i: usize = 0;
    assert(all@.take(0) =~= Seq::<Preset>::empty());
    assert(summary_views(out@) =~= summaries(all@.take(0), filter@));
    while i < all.len()
        invariant
            i <= all@.len(),
            all@.len() <= i32::MAX,
            summary_views(out@) == summaries(all@.take(i as int), filter@),
        decreases all.len() - i,
    {
        let ghost before = out@;
        proof {
            assert(all@.take(i + 1).drop_last() =~= all@.take(i as int));
            assert(all@.take(i + 1).last() == all@[i as int]);
        }
        if preset_matches(&all[i], filter) {
            out.push(PresetSummary { id: all[i].id.clone(), orig_index: i as i32 });
            assert(summary_views(out@) =~= summary_views(before).push((all@[i as int].id@, i as int)));
        }
        i += 1;
    }
    assert(all@.take(all@.len() as int) =~= all@);
    out
}

/// A row leads back to its preset: its place is that of a preset that passes, with
/// the row's id.
pub proof fn law_rows_lead_back(all: Seq<Preset>, filter: Seq<char>, k: int)
    requires
        0 <= k < summaries(all, filter).len(),
    ensures
        ({
            let (id, at) = summaries(all, filter)[k];
            0 <= at < all.len() && all[at].id@ == id && passes(all[at], filter)
        }),
    decreases all.len(),
{
    if all.len() > 0 {
        let init = all.drop_last();
        let before = summaries(init, filter);
        if k < before.len() {
            law_rows_lead_back(init, filter, k);
            let at = before[k].1;
            assert(init[at] == all[at]);
            assert(summaries(all, filter)[k] == before[k]);
        }
    }
}

/// The files that a filter leaves.
pub open spec fn filtered_files(all: Seq<FileOption>, filter: Seq<char>) -> Seq<(Seq<char>, Seq<char>)>
    decreases all.len(),
{
    if all.len() == 0 {
        Seq::empty()
    } else {
        let before = filtered_files(all.drop_last(), filter);
        let query = lowercase(filter);
        if query.len() == 0 || contains(lowercase(all.last().label@), query) {
            before.push((all.last().label@, all.last().path@))
        } else {
            before
        }
    }
}

/// The files whose label holds a filter, in any case.
pub fn filter_files(all: &[FileOption], filter: &str) -> (r: Vec<FileOption>)
    ensures
        files(r@) == filtered_files(all@, filter@),
{
    let query = to_lower_text(filter);
    let mut out: Vec<FileOption> = Vec::new();
    let mut i: usize = 0;
    assert(all@.take(0) =~= Seq::<FileOption>::empty());
    assert(files(out@) =~= filtered_files(all@.take(0), filter@));
    while i < all.len()
        invariant
            i <= all@.len(),
            query@ == lowercase(filter@),
            files(out@) == filtered_files(all@.take(i as int), filter@),
        decreases all.len() - i,
    {
        let ghost before = out@;
        proof {
            assert(all@.take(i + 1).drop_last() =~= all@.take(i as int));
            assert(all@.take(i + 1).last() == all@[i as int]);
        }
        let label = to_lower_text(all[i].label.as_str());
        if query.as_str().is_empty() || str_contains(label.as_str(), query.as_str()) {
            out.push(FileOption { label: all[i].label.clone(), path: all[i].path.clone() });
            assert(files(out@) =~= files(before).push(
                (all@[i as int].label@, all@[i as int].path@),
            ));
        }
        i += 1;
    }
    assert(all@.take(all@.len() as int) =~= all@);
    out
}

// ── Selecting ────────────────────────────────────────────────────────────

/// Which preset is selected once the list was read again: the wanted one; without a
/// wish the one that was shown, by its id, else by its place; failing that the
/// first, or -1 where there is none.
pub open spec fn selected_after(
    all: Seq<Preset>,
    want: Option<Seq<char>>,
    shown_id: Seq<char>,
    shown_at: int,
) -> int {
    let first = if all.len() == 0 {
        -1int
    } else {
        0
    };
    match want {
        Some(id) => if preset_at(all, id) >= 0 {
            preset_at(all, id)
        } else {
            first
        },
        None => if shown_id.len() > 0 && preset_at(all, shown_id) >= 0 {
            preset_at(all, shown_id)
        } else if 0 <= shown_at < all.len() {
            shown_at
        } else {
            first
        },
    }
}

/// Which preset is selected once the list was read again.
pub fn select_after_reload(all: &[Preset], want: Option<&str>, shown_id: &str, shown_at: i32) -> (r: i32)
    requires
        all@.len() <= i32::MAX,
    ensures
        r == selected_after(
            all@,
            match want {
                Some(w) => Some(w@),
                None => None,
            },
            shown_id@,
            shown_at as int,
        ),
{
    let first: i32 = if all.len() == 0 {
        -1
    } else {
        0
    };
    match want {
        Some(id) => match find_preset(all, id) {
            Some(i) => i as i32,
            None => first,
        },
        None => {
            if !shown_id.is_empty() {
                if let Some(i) = find_preset(all, shown_id) {
                    return i as i32;
                }
            }
            if shown_at >= 0 && (shown_at as usize) < all.len() {
                return shown_at;
            }
            first
        },
    }
}

/// The selection is a preset of the list, or -1 where the list is empty.
pub proof fn law_selection_is_valid(all: Seq<Preset>, want: Option<Seq<char>>, shown_id: Seq<char>, shown_at: int)
    ensures
        ({
            let i = selected_after(all, want, shown_id, shown_at);
            if all.len() == 0 {
                i == -1
            } else {
                0 <= i < all.len()
            }
        }),
{
    lemma_preset_at_bound(all, shown_id);
    if let Some(id) = want {
        lemma_preset_at_bound(all, id);
    }
}

proof fn lemma_preset_at_bound(all: Seq<Preset>, id: Seq<char>)
    ensures
        -1 <= preset_at(all, id) < all.len(),
    decreases all.len(),
{
    if all.len() > 0 {
        lemma_preset_at_bound(all.drop_last(), id);
    }
}

// ── New presets ──────────────────────────────────────────────────────────

/// Why a preset cannot be saved.
pub fn save_problem(id: &str, model: &str) -> (r: Option<String>)
    ensures
        opt(r) == if id@.len() == 0 {
            Some("Preset id is empty."@)
        } else if model@.len() == 0 {
            Some("Pick a model file before saving."@)
        } else {
            None
        },
{
    if id.is_empty() {
        Some("Preset id is empty.".to_owned())
    } else if model.is_empty() {
        Some("Pick a model file before saving.".to_owned())
    } else {
        None
    }
}

/// The n-th id after a base: the base itself, then with a number behind it.
pub open spec fn candidate(base: Seq<char>, n: nat) -> Seq<char> {
    if n <= 1 {
        base
    } else {
        base + "-"@ + dec(n)
    }
}

/// Whether an id is the first that is free.
pub open spec fn first_free(base: Seq<char>, existing: Seq<Seq<char>>, n: nat) -> bool {
    &&& n >= 1
    &&& !existing.contains(candidate(base, n))
    &&& forall|k: nat| 1 <= k < n ==> existing.contains(#[trigger] candidate(base, k))
}

proof fn lemma_candidates_differ(base: Seq<char>, a: nat, b: nat)
    requires
        1 <= a < b,
    ensures
        candidate(base, a) != candidate(base, b),
{
    reveal_strlit("-");
    let tail = "-"@ + dec(b);
    assert(candidate(base, b) =~= base + tail);
    if a == 1 {
        assert(candidate(base, b).len() > base.len());
    } else {
        let other = "-"@ + dec(a);
        assert(candidate(base, a) =~= base + other);
        if base + other == base + tail {
            assert(dec(a) =~= (base + other).skip(base.len() as int + 1));
            assert(dec(b) =~= (base + tail).skip(base.len() as int + 1));
            lemma_parse_dec_int(a as int, 0, b as int);
            lemma_parse_dec_int(b as int, 0, b as int);
            assert(dec_int(a as int) == dec(a) && dec_int(b as int) == dec(b));
        }
    }
}

/// Of one candidate more than there are ids, one is free.
proof fn lemma_some_candidate_is_free(base: Seq<char>, existing: Seq<Seq<char>>)
    ensures
        exists|k: nat| 1 <= k <= existing.len() + 1 && !existing.contains(#[trigger] candidate(base, k)),
{
    let n = existing.len() + 1;
    let all = Seq::new(n, |i: int| candidate(base, (i + 1) as nat));
    if forall|k: nat| 1 <= k <= n ==> existing.contains(#[trigger] candidate(base, k)) {
        assert forall|i: int, j: int| 0 <= i < j < all.len() implies all[i] != all[j] by {
            lemma_candidates_differ(base, (i + 1) as nat, (j + 1) as nat);
        }
        assert(all.no_duplicates());
        all.unique_seq_to_set();
        existing.lemma_cardinality_of_set();
        assert forall|x: Seq<char>| all.to_set().contains(x) implies existing.to_set().contains(x) by {
            let i = choose|i: int| 0 <= i < all.len() && all[i] == x;
            assert(existing.contains(candidate(base, (i + 1) as nat)));
        }
        lemma_len_subset(all.to_set(), existing.to_set());
    }
}

/// The first of an id, the id with 2 behind it, with 3, and so on that is free.
pub fn unique_id(base: &str, existing: &Vec<String>) -> (r: String)
    ensures
        exists|n: nat| #[trigger] first_free(base@, strs(existing@), n) && r@ == candidate(base@, n),
{
    let ghost ids = strs(existing@);
    proof {
        lemma_some_candidate_is_free(base@, ids);
    }
    assert(candidate(base@, 1) == base@);
    if !list_has(existing, base) {
        assert(first_free(base@, ids, 1));
        return base.to_owned();
    }
    let total: usize = existing.len();
    let mut n: u128 = 2;
    loop
        invariant
            ids == strs(existing@),
            2 <= n,
            total == existing@.len(),
            n <= total + 2,
            total <= usize::MAX,
            exists|k: nat|
                1 <= k <= ids.len() + 1 && !ids.contains(#[trigger] candidate(base@, k)),
            ids.len() == total,
            forall|k: nat| 1 <= k < n ==> ids.contains(#[trigger] candidate(base@, k)),
        decreases total + 2 - n,
    {
        let mut id: String = base.to_owned();
        id.append("-");
        push_wide(&mut id, n);
        assert(id@ =~= candidate(base@, n as nat));
        if !list_has(existing, id.as_str()) {
            assert(first_free(base@, ids, n as nat));
            return id;
        }
        proof {
            let k = choose|k: nat|
                1 <= k <= ids.len() + 1 && !ids.contains(#[trigger] candidate(base@, k));
            assert(k > n);
            assert forall|j: nat| 1 <= j < n + 1 implies ids.contains(
                #[trigger] candidate(base@, j),
            ) by {
                if j < n {
                } else {
                    assert(j == n as nat);
                }
            }
        }
        n = n + 1;
    }
}

/// A copy of a preset under another id and for another model.
pub fn clone_preset(base: &Preset, id: &str, model: &str) -> (r: Preset)
    ensures
        r.id@ == id@,
        r.model@ == model@,
        (Preset { id: base.id, model: base.model, ..r }).same(*base),
{
    let mut p = base.clone();
    p.id = id.to_owned();
    p.model = model.to_owned();
    p
}

// ── Other tools ──────────────────────────────────────────────────────────

/// A row of the list of models for other tools.
#[derive(Debug, Clone, PartialEq, Eq)]
pub struct IntegrationModel {
    pub id: String,
    pub label: String,
    pub enabled: bool,
}

/// A row as text.
#[verifier::ext_equal]
pub struct IntegrationText {
    pub id: Seq<char>,
    pub label: Seq<char>,
    pub enabled: bool,
}

impl View for IntegrationModel {
    type V = IntegrationText;

    open spec fn view(&self) -> IntegrationText {
        IntegrationText { id: self.id@, label: self.label@, enabled: self.enabled }
    }
}

/// What a row was switched to and not saved yet: the last of its id.
pub open spec fn pending_of(pending: Seq<(String, bool)>, id: Seq<char>) -> Option<bool>
    decreases pending.len(),
{
    if pending.len() == 0 {
        None
    } else if pending.last().0@ == id {
        Some(pending.last().1)
    } else {
        pending_of(pending.drop_last(), id)
    }
}

fn find_pending(pending: &Vec<(String, bool)>, id: &str) -> (r: Option<bool>)
    ensures
        r == pending_of(pending@, id@),
{
    let mut i: usize = pending.len();
    assert(pending@.take(i as int) =~= pending@);
    while i > 0
        invariant
            i <= pending@.len(),
            pending_of(pending@, id@) == pending_of(pending@.take(i as int), id@),
        decreases i,
    {
        proof {
            assert(pending@.take(i as int).last() == pending@[i - 1]);
            assert(pending@.take(i as int).drop_last() =~= pending@.take(i - 1));
        }
        if str_eq(pending[i - 1].0.as_str(), id) {
            return Some(pending[i - 1].1);
        }
        i -= 1;
    }
    None
}

/// The row of a preset: what it was switched to, else what the file says.
pub open spec fn integration_row(p: Preset, pending: Seq<(String, bool)>, enabled: Seq<Seq<char>>) -> IntegrationText {
    IntegrationText {
        id: p.id@,
        label: friendly(p.id@, p.model@),
        enabled: match pending_of(pending, p.id@) {
            Some(b) => b,
            None => enabled.contains(p.id@),
        },
    }
}

/// The rows of the list of models for other tools.
pub fn integration_rows(all: &[Preset], pending: &Vec<(String, bool)>, enabled: &Vec<String>) -> (r: Vec<
    IntegrationModel,
>)
    ensures
        r@.len() == all@.len(),
        forall|i: int|
            0 <= i < all@.len() ==> (#[trigger] r@[i])@ == integration_row(
                all@[i],
                pending@,
                strs(enabled@),
            ),
{
    let mut out: Vec<IntegrationModel> = Vec::new();
    let mut i: usize = 0;
    while i < all.len()
        invariant
            i <= all@.len(),
            out@.len() == i,
            forall|k: int|
                0 <= k < i ==> (#[trigger] out@[k])@ == integration_row(
                    all@[k],
                    pending@,
                    strs(enabled@),
                ),
        decreases all.len() - i,
    {
        let p = &all[i];
        let on: bool = match find_pending(pending, p.id.as_str()) {
            Some(b) => b,
            None => list_has(enabled, p.id.as_str()),
        };
        let label = friendly_model_name(p.id.as_str(), p.model.as_str());
        out.push(IntegrationModel { id: p.id.clone(), label, enabled: on });
        i += 1;
    }
    out
}

/// Whether a row says something else than the file.
pub fn integrations_dirty(rows: &[IntegrationModel], enabled: &Vec<String>) -> (r: bool)
    ensures
        r == exists|i: int|
            0 <= i < rows@.len() && (#[trigger] rows@[i]).enabled != strs(enabled@).contains(
                rows@[i].id@,
            ),
{
    let mut i: usize = 0;
    while i < rows.len()
        invariant
            i <= rows@.len(),
            forall|k: int|
                0 <= k < i ==> (#[trigger] rows@[k]).enabled == strs(enabled@).contains(rows@[k].id@),
        decreases rows.len() - i,
    {
        if rows[i].enabled != list_has(enabled, rows[i].id.as_str()) {
            return true;
        }
        i += 1;
    }
    false
}

/// A list without an id.
pub open spec fn without(ids: Seq<Seq<char>>, id: Seq<char>) -> Seq<Seq<char>>
    decreases ids.len(),
{
    if ids.len() == 0 {
        Seq::empty()
    } else if ids.last() == id {
        without(ids.drop_last(), id)
    } else {
        without(ids.drop_last(), id).push(ids.last())
    }
}

/// The ids that another tool offers once a preset was renamed or deleted; none
/// where it did not offer that one, so that nothing is to be written.
pub fn synced_ids(ids: &Vec<String>, old_id: &str, new_id: &Option<String>) -> (r: Option<Vec<String>>)
    ensures
        match r {
            Some(v) => strs(ids@).contains(old_id@) && strs(v@) == without(strs(ids@), old_id@) + (
            match *new_id {
                Some(n) => seq![n@],
                None => Seq::empty(),
            }),
            None => !strs(ids@).contains(old_id@),
        },
{
    if !list_has(ids, old_id) {
        return None;
    }
    let ghost all = strs(ids@);
    let mut out: Vec<String> = Vec::new();
    let mut i: usize = 0;
    assert(all.take(0) =~= Seq::<Seq<char>>::empty());
    assert(strs(out@) =~= without(all.take(0), old_id@));
    while i < ids.len()
        invariant
            i <= ids@.len(),
            all == strs(ids@),
            strs(out@) == without(all.take(i as int), old_id@),
        decreases ids.len() - i,
    {
        let ghost before = out@;
        proof {
            assert(all.take(i + 1).drop_last() =~= all.take(i as int));
            assert(all.take(i + 1).last() == ids@[i as int]@);
        }
        if !str_eq(ids[i].as_str(), old_id) {
            out.push(ids[i].clone());
            assert(strs(out@) =~= strs(before).push(ids@[i as int]@));
        }
        i += 1;
    }
    assert(all.take(ids@.len() as int) =~= all);
    let ghost kept = strs(out@);
    match new_id {
        Some(n) => {
            out.push(n.clone());
            assert(strs(out@) =~= kept + seq![n@]);
        },
        None => {
            assert(strs(out@) =~= kept + Seq::<Seq<char>>::empty());
        },
    }
    Some(out)
}

// ── What is measured ─────────────────────────────────────────────────────

/// The first place of an id, or -1.
pub open spec fn place(ids: Seq<Seq<char>>, id: Seq<char>) -> int
    decreases ids.len(),
{
    if ids.len() == 0 {
        -1
    } else if place(ids.drop_last(), id) >= 0 {
        place(ids.drop_last(), id)
    } else if ids.last() == id {
        ids.len() - 1
    } else {
        -1
    }
}

proof fn lemma_place_prefix(ids: Seq<Seq<char>>, id: Seq<char>, n: int)
    requires
        0 <= n <= ids.len(),
        place(ids.take(n), id) >= 0,
    ensures
        place(ids, id) == place(ids.take(n), id),
    decreases ids.len() - n,
{
    if n == ids.len() {
        assert(ids.take(n) =~= ids);
    } else {
        assert(ids.take(n + 1).drop_last() =~= ids.take(n));
        lemma_place_prefix(ids, id, n + 1);
    }
}

fn find_place(ids: &Vec<String>, id: &str) -> (r: Option<usize>)
    ensures
        match r {
            Some(i) => i == place(strs(ids@), id@) && i < ids@.len(),
            None => place(strs(ids@), id@) < 0,
        },
{
    let ghost all = strs(ids@);
    let mut i: usize = 0;
    while i < ids.len()
        invariant
            i <= ids@.len(),
            all == strs(ids@),
            place(all.take(i as int), id@) < 0,
        decreases ids.len() - i,
    {
        proof {
            assert(all.take(i + 1).drop_last() =~= all.take(i as int));
            assert(all.take(i + 1).last() == ids@[i as int]@);
        }
        if str_eq(ids[i].as_str(), id) {
            proof {
                lemma_place_prefix(all, id@, i + 1);
            }
            return Some(i);
        }
        i += 1;
    }
    assert(all.take(ids@.len() as int) =~= all);
    None
}

/// The presets that are measured, in order, once one was checked or unchecked: it
/// comes last, or goes and closes the gap.
pub open spec fn toggled_presets(ids: Seq<Seq<char>>, id: Seq<char>) -> Seq<Seq<char>> {
    if place(ids, id) >= 0 {
        ids.remove(place(ids, id))
    } else {
        ids.push(id)
    }
}

/// Checks or unchecks a preset.
pub fn toggle_preset(ids: &mut Vec<String>, id: &str)
    ensures
        strs(final(ids)@) == toggled_presets(strs(old(ids)@), id@),
{
    let ghost before = ids@;
    match find_place(ids, id) {
        Some(i) => {
            ids.remove(i);
            assert(strs(ids@) =~= strs(before).remove(i as int));
        },
        None => {
            ids.push(id.to_owned());
            assert(strs(ids@) =~= strs(before).push(id@));
        },
    }
}

/// Unchecking what was just checked gives the order back.
pub proof fn law_toggle_preset_twice(ids: Seq<Seq<char>>, id: Seq<char>)
    requires
        place(ids, id) < 0,
    ensures
        toggled_presets(toggled_presets(ids, id), id) == ids,
{
    let now = ids.push(id);
    assert(now.drop_last() =~= ids);
    assert(place(now, id) == ids.len());
    assert(now.remove(ids.len() as int) =~= ids);
}

/// The ids of a list that are still known.
pub open spec fn known_of(ids: Seq<Seq<char>>, known: Seq<Seq<char>>) -> Seq<Seq<char>>
    decreases ids.len(),
{
    if ids.len() == 0 {
        Seq::empty()
    } else if known.contains(ids.last()) {
        known_of(ids.drop_last(), known).push(ids.last())
    } else {
        known_of(ids.drop_last(), known)
    }
}

/// Drops what is not known any more from the presets that are measured.
pub fn prune_selection(ids: &Vec<String>, known: &Vec<String>) -> (r: Vec<String>)
    ensures
        strs(r@) == known_of(strs(ids@), strs(known@)),
{
    let ghost all = strs(ids@);
    let mut out: Vec<String> = Vec::new();
    let mut i: usize = 0;
    assert(all.take(0) =~= Seq::<Seq<char>>::empty());
    assert(strs(out@) =~= known_of(all.take(0), strs(known@)));
    while i < ids.len()
        invariant
            i <= ids@.len(),
            all == strs(ids@),
            strs(out@) == known_of(all.take(i as int), strs(known@)),
        decreases ids.len() - i,
    {
        let ghost before = out@;
        proof {
            assert(all.take(i + 1).drop_last() =~= all.take(i as int));
            assert(all.take(i + 1).last() == ids@[i as int]@);
        }
        if list_has(known, ids[i].as_str()) {
            out.push(ids[i].clone());
            assert(strs(out@) =~= strs(before).push(ids@[i as int]@));
        }
        i += 1;
    }
    assert(all.take(ids@.len() as int) =~= all);
    out
}

/// A row of the list of presets that can be measured.
#[derive(Debug, Clone, PartialEq, Eq)]
pub struct BenchPresetRow {
    pub id: String,
    /// The name of the model's file.
    pub model: String,
    pub selected: bool,
    /// The place in the order, from 1; 0 where it is not measured.
    pub order: i32,
}

/// Whether a row is that of a preset.
pub open spec fn bench_row_is(r: BenchPresetRow, p: Preset, selection: Seq<Seq<char>>) -> bool {
    &&& r.id@ == p.id@
    &&& r.model@ == match name_in(p.model@) {
        Some(n) => n,
        None => p.model@,
    }
    &&& r.selected == (place(selection, p.id@) >= 0)
    &&& r.order == place(selection, p.id@) + 1
}

/// The rows of the list of presets that can be measured.
pub fn bench_rows(all: &[Preset], selection: &Vec<String>) -> (r: Vec<BenchPresetRow>)
    requires
        selection@.len() < i32::MAX,
    ensures
        r@.len() == all@.len(),
        forall|i: int|
            0 <= i < all@.len() ==> bench_row_is(#[trigger] r@[i], all@[i], strs(selection@)),
{
    let mut out: Vec<BenchPresetRow> = Vec::new();
    let mut i: usize = 0;
    while i < all.len()
        invariant
            i <= all@.len(),
            selection@.len() < i32::MAX,
            out@.len() == i,
            forall|k: int|
                0 <= k < i ==> bench_row_is(#[trigger] out@[k], all@[k], strs(selection@)),
        decreases all.len() - i,
    {
        let p = &all[i];
        let model = match file_name(p.model.as_str()) {
            Some(n) => n,
            None => p.model.clone(),
        };
        let at = find_place(selection, p.id.as_str());
        proof {
            lemma_place_bound(strs(selection@), p.id@);
        }
        let order: i32 = match at {
            Some(k) => (k + 1) as i32,
            None => 0,
        };
        out.push(BenchPresetRow { id: p.id.clone(), model, selected: at.is_some(), order });
        i += 1;
    }
    out
}

proof fn lemma_place_bound(ids: Seq<Seq<char>>, id: Seq<char>)
    ensures
        -1 <= place(ids, id) < ids.len(),
    decreases ids.len(),
{
    if ids.len() > 0 {
        lemma_place_bound(ids.drop_last(), id);
    }
}

/// The index of a run in the list of runs, or -1.
pub fn run_index(stamps: &Vec<String>, showing: &str) -> (r: i32)
    requires
        stamps@.len() <= i32::MAX,
    ensures
        r == place(strs(stamps@), showing@),
{
    proof {
        lemma_place_bound(strs(stamps@), showing@);
    }
    match find_place(stamps, showing) {
        Some(i) => i as i32,
        None => -1,
    }
}

// ── The plan that the fields make ────────────────────────────────────────

/// The fields of a workload, as they are typed.
#[derive(Debug, Clone, PartialEq, Eq)]
pub struct WorkloadFields {
    pub mode: String,
    pub reps: String,
    pub temp: String,
    /// Leave the preset's own temperature alone.
    pub temp_default: bool,
    pub max_tokens: String,
    pub prompt_lens: String,
    pub depths: String,
    pub n_gen: String,
}

/// The number in a field, or what stands for it where there is none.
pub open spec fn number_or(s: Seq<char>, d: i32) -> int {
    match parse_signed(trim(s), i32::MIN as int, i32::MAX as int) {
        Some(n) => n,
        None => d as int,
    }
}

fn number_in(s: &str, d: i32) -> (r: i32)
    ensures
        r == number_or(s@, d),
{
    match parse_int(s) {
        Some(n) => n,
        None => d,
    }
}

/// The plan that the fields make. What is no number gives its default.
pub fn plan_from_fields(f: &WorkloadFields, selection: &Vec<String>, prompt: &str, prompt_file: &str) -> (r: Plan)
    ensures
        r.mode == if f.mode@ == "synthetic"@ {
            Mode::Synthetic
        } else {
            Mode::Live
        },
        strs(r.presets@) == strs(selection@),
        r.reps == if number_or(f.reps@, DEFAULT_REPS) < 1 {
            1int
        } else {
            number_or(f.reps@, DEFAULT_REPS)
        },
        r.prompt@ == prompt@,
        opt(r.prompt_file) == Some(prompt_file@),
        opt(r.temp) == if f.temp_default {
            None
        } else {
            match decimal_read(f.temp@) {
                Some(t) => Some(t),
                None => Some("0"@),
            }
        },
        !f.temp_default && decimal_read(f.temp@) is Some ==> keeps_short(f.temp@, opt(r.temp)),
        r.max_tokens == number_or(f.max_tokens@, DEFAULT_MAX_TOKENS),
        r.prompt_lens@ == numbers_in(entries(f.prompt_lens@, ',')),
        r.depths@ == numbers_in(entries(f.depths@, ',')),
        r.n_gen == number_or(f.n_gen@, DEFAULT_GEN),
{
    let reps: i32 = number_in(f.reps.as_str(), DEFAULT_REPS);
    let mut presets: Vec<String> = Vec::new();
    let mut i: usize = 0;
    while i < selection.len()
        invariant
            i <= selection@.len(),
            presets@.len() == i,
            forall|k: int| 0 <= k < i ==> (#[trigger] presets@[k])@ == selection@[k]@,
        decreases selection.len() - i,
    {
        presets.push(selection[i].clone());
        i += 1;
    }
    assert(strs(presets@) =~= strs(selection@));
    let temp = if f.temp_default {
        None
    } else {
        match parse_decimal(f.temp.as_str()) {
            Some(t) => Some(t),
            None => Some("0".to_owned()),
        }
    };
    Plan {
        mode: Mode::from_str(f.mode.as_str()),
        presets,
        reps: if reps < 1 {
            1
        } else {
            reps
        },
        prompt: prompt.to_owned(),
        prompt_file: Some(prompt_file.to_owned()),
        temp,
        max_tokens: number_in(f.max_tokens.as_str(), DEFAULT_MAX_TOKENS),
        prompt_lens: parse_int_list(f.prompt_lens.as_str()),
        depths: parse_int_list(f.depths.as_str()),
        n_gen: number_in(f.n_gen.as_str(), DEFAULT_GEN),
    }
}

} // verus!
