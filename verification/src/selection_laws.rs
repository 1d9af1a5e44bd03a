//! What the lists of presets show, and what their switches come to.
use vstd::prelude::*;
use vstd::string::*;
use crate::exec::preset_at;
use crate::letters::lowercase;
use crate::model_scan::FileOption;
use crate::presets::Preset;
use crate::selection::{
    bench_row_is, candidate, filtered_files, first_free, integration_row, known_of, number_or,
    pending_of, place, selected_after, summaries, toggled_presets, without, BenchPresetRow,
};
use crate::sweep_laws::lemma_dec_int_shape;
use crate::text::{contains, dec, dec_int, lemma_parse_dec_int};

verus! {

// ── Filters ──────────────────────────────────────────────────────────────

/// Every preset whose id or model holds the filter, in any case, has a row that leads
/// to it; with an empty filter every preset has.
pub proof fn law_filter_is_complete(all: Seq<Preset>, filter: Seq<char>, k: int)
    requires
        0 <= k < all.len(),
    ensures
        summaries(all, filter).contains((all[k].id@, k)) <==> filter.len() == 0 || contains(
            lowercase(all[k].id@),
            lowercase(filter),
        ) || contains(lowercase(all[k].model@), lowercase(filter)),
    decreases all.len(),
{
    let init = all.drop_last();
    let before = summaries(init, filter);
    let now = summaries(all, filter);
    let row = (all[k].id@, k);
    lemma_places_rise(init, filter);
    if k < init.len() {
        assert(init[k] == all[k]);
        law_filter_is_complete(init, filter, k);
        if before.contains(row) {
            let i = choose|i: int| 0 <= i < before.len() && before[i] == row;
            assert(now[i] == row);
        }
        if now.contains(row) {
            let i = choose|i: int| 0 <= i < now.len() && now[i] == row;
            assert(i < before.len());
            assert(before[i] == row);
        }
    } else {
        if now.len() > before.len() {
            assert(now[before.len() as int] == row);
        } else if now.contains(row) {
            let i = choose|i: int| 0 <= i < now.len() && now[i] == row;
            assert(before[i].1 < init.len());
        }
    }
}

proof fn lemma_places_rise(all: Seq<Preset>, filter: Seq<char>)
    ensures
        forall|i: int|
            0 <= i < summaries(all, filter).len() ==> 0 <= (#[trigger] summaries(all, filter)[i]).1
                < all.len(),
        forall|i: int, j: int|
            0 <= i < j < summaries(all, filter).len() ==> (#[trigger] summaries(all, filter)[i]).1 < (
            #[trigger] summaries(all, filter)[j]).1,
    decreases all.len(),
{
    if all.len() > 0 {
        let init = all.drop_last();
        lemma_places_rise(init, filter);
        let before = summaries(init, filter);
        let now = summaries(all, filter);
        assert forall|i: int| 0 <= i < now.len() implies 0 <= (#[trigger] now[i]).1 < all.len() by {
            if i < before.len() {
                assert(now[i] == before[i]);
            }
        }
        assert forall|i: int, j: int| 0 <= i < j < now.len() implies (#[trigger] now[i]).1 < (
        #[trigger] now[j]).1 by {
            assert(now[i] == before[i]);
            if j < before.len() {
                assert(now[j] == before[j]);
            }
        }
    }
}

/// The rows of a filter are in the order of the presets.
pub proof fn law_filter_keeps_the_order(all: Seq<Preset>, filter: Seq<char>, i: int, j: int)
    requires
        0 <= i < j < summaries(all, filter).len(),
    ensures
        summaries(all, filter)[i].1 < summaries(all, filter)[j].1,
{
    lemma_places_rise(all, filter);
}

/// A file passes a filter exactly where its label holds it, in any case.
pub proof fn law_file_filter(all: Seq<FileOption>, filter: Seq<char>, f: FileOption)
    ensures
        lowercase(filter).len() == 0 || contains(lowercase(f.label@), lowercase(filter)) ==> filtered_files(
            all.push(f),
            filter,
        ) == filtered_files(all, filter).push((f.label@, f.path@)),
        lowercase(filter).len() > 0 && !contains(lowercase(f.label@), lowercase(filter))
            ==> filtered_files(all.push(f), filter) == filtered_files(all, filter),
        filtered_files(Seq::empty(), filter).len() == 0,
{
    assert(all.push(f).drop_last() =~= all);
}

// ── Selecting ────────────────────────────────────────────────────────────

/// The preset of an id is the first that has it.
pub proof fn law_first_of_an_id(all: Seq<Preset>, id: Seq<char>, k: int)
    requires
        0 <= k <= all.len(),
        forall|j: int| 0 <= j < k ==> (#[trigger] all[j]).id@ != id,
        k < all.len() ==> all[k].id@ == id,
    ensures
        preset_at(all, id) == if k < all.len() {
            k
        } else {
            -1
        },
    decreases all.len(),
{
    if all.len() > 0 {
        let init = all.drop_last();
        if k < init.len() {
            assert(init[k] == all[k]);
            assert forall|j: int| 0 <= j < k implies (#[trigger] init[j]).id@ != id by {
                assert(init[j] == all[j]);
            }
            law_first_of_an_id(init, id, k);
        } else {
            assert forall|j: int| 0 <= j < init.len() implies (#[trigger] init[j]).id@ != id by {
                assert(init[j] == all[j]);
            }
            law_first_of_an_id(init, id, init.len() as int);
            assert(all[all.len() - 1] == all.last());
        }
    }
}

/// A wanted preset is selected where it is. Without a wish the one that was shown stays
/// selected, wherever it is now; one that is gone leaves its place selected, and a place
/// that is gone the first.
pub proof fn law_selection_follows(
    all: Seq<Preset>,
    want: Seq<char>,
    shown: Seq<char>,
    shown_at: int,
    k: int,
)
    requires
        0 <= k < all.len(),
    ensures
        (forall|j: int| 0 <= j < k ==> (#[trigger] all[j]).id@ != want) && all[k].id@ == want
            ==> selected_after(all, Some(want), shown, shown_at) == k,
        (forall|j: int| 0 <= j < all.len() ==> (#[trigger] all[j]).id@ != want) ==> selected_after(
            all,
            Some(want),
            shown,
            shown_at,
        ) == 0,
        shown.len() > 0 && (forall|j: int| 0 <= j < k ==> (#[trigger] all[j]).id@ != shown)
            && all[k].id@ == shown ==> selected_after(all, None, shown, shown_at) == k,
        (forall|j: int| 0 <= j < all.len() ==> (#[trigger] all[j]).id@ != shown) ==> selected_after(
            all,
            None,
            shown,
            shown_at,
        ) == if 0 <= shown_at < all.len() {
            shown_at
        } else {
            0
        },
{
    if (forall|j: int| 0 <= j < k ==> (#[trigger] all[j]).id@ != want) && all[k].id@ == want {
        law_first_of_an_id(all, want, k);
    }
    if forall|j: int| 0 <= j < all.len() ==> (#[trigger] all[j]).id@ != want {
        law_first_of_an_id(all, want, all.len() as int);
    }
    if (forall|j: int| 0 <= j < k ==> (#[trigger] all[j]).id@ != shown) && all[k].id@ == shown {
        law_first_of_an_id(all, shown, k);
    }
    if forall|j: int| 0 <= j < all.len() ==> (#[trigger] all[j]).id@ != shown {
        law_first_of_an_id(all, shown, all.len() as int);
    }
}

/// The ids that are tried for a new preset: the base, then with 2, 3 and so on behind.
pub proof fn law_candidates(base: Seq<char>, n: nat)
    requires
        n >= 2,
    ensures
        candidate(base, 1) == base,
        candidate(base, n) == base + "-"@ + dec(n),
{
}

/// The id that a new preset gets is taken by none, and there is only one such id: the base
/// where that is free, else the base with the least number from 2 on that makes it free.
pub proof fn law_fresh_id(base: Seq<char>, existing: Seq<Seq<char>>, n: nat, m: nat)
    requires
        first_free(base, existing, n),
    ensures
        !existing.contains(candidate(base, n)),
        !existing.contains(base) ==> candidate(base, n) == base,
        existing.contains(base) ==> n >= 2 && candidate(base, n) == base + "-"@ + dec(n),
        existing.contains(base) && 2 <= m < n ==> existing.contains(base + "-"@ + dec(m)),
        first_free(base, existing, m) ==> m == n,
{
    assert(candidate(base, 1) == base);
    if 2 <= m < n {
        assert(existing.contains(candidate(base, m)));
    }
    if first_free(base, existing, m) {
        if m < n {
            assert(existing.contains(candidate(base, m)));
        } else if n < m {
            assert(existing.contains(candidate(base, n)));
        }
    }
}

// ── Switches ─────────────────────────────────────────────────────────────

/// The last switch of an id counts, and only for that id.
pub proof fn law_last_switch_counts(pending: Seq<(String, bool)>, id: String, b: bool, other: Seq<char>)
    ensures
        pending_of(pending.push((id, b)), id@) == Some(b),
        other != id@ ==> pending_of(pending.push((id, b)), other) == pending_of(pending, other),
        pending_of(Seq::empty(), other) is None,
{
    assert(pending.push((id, b)).drop_last() =~= pending);
}

/// A row shows what it was switched to, and without a switch whether the file has its id.
pub proof fn law_row_shows_the_switch(p: Preset, pending: Seq<(String, bool)>, enabled: Seq<Seq<char>>)
    ensures
        integration_row(p, pending, enabled).id == p.id@,
        pending_of(pending, p.id@) matches Some(b) ==> integration_row(p, pending, enabled).enabled == b,
        pending_of(pending, p.id@) is None ==> integration_row(p, pending, enabled).enabled
            == enabled.contains(p.id@),
{
}

/// A list without an id holds the others, as often and in the order they were there.
pub proof fn law_without_an_id(ids: Seq<Seq<char>>, id: Seq<char>)
    ensures
        !without(ids, id).contains(id),
        forall|x: Seq<char>| x != id ==> (#[trigger] ids.contains(x) <==> without(ids, id).contains(x)),
        !ids.contains(id) ==> without(ids, id) == ids,
    decreases ids.len(),
{
    let now = without(ids, id);
    if ids.len() > 0 {
        let init = ids.drop_last();
        law_without_an_id(init, id);
        let before = without(init, id);
        let last = ids.last();
        assert(ids[ids.len() - 1] == last);
        assert forall|x: Seq<char>| x != id implies (#[trigger] ids.contains(x) <==> now.contains(x)) by {
            if ids.contains(x) {
                let k = choose|k: int| 0 <= k < ids.len() && ids[k] == x;
                if k < init.len() {
                    assert(init[k] == x);
                    assert(init.contains(x));
                    let j = choose|j: int| 0 <= j < before.len() && before[j] == x;
                    assert(now[j] == x);
                } else {
                    assert(now[before.len() as int] == x);
                }
            }
            if now.contains(x) {
                let j = choose|j: int| 0 <= j < now.len() && now[j] == x;
                if j < before.len() {
                    assert(before[j] == x);
                    assert(init.contains(x));
                    let k = choose|k: int| 0 <= k < init.len() && init[k] == x;
                    assert(ids[k] == x);
                }
            }
        }
        if now.contains(id) {
            let j = choose|j: int| 0 <= j < now.len() && now[j] == id;
            if j < before.len() {
                assert(before[j] == id);
                assert(before.contains(id));
            }
        }
        if !ids.contains(id) {
            assert(!init.contains(id)) by {
                if init.contains(id) {
                    let k = choose|k: int| 0 <= k < init.len() && init[k] == id;
                    assert(ids[k] == id);
                }
            }
            assert(init.push(last) =~= ids);
        }
    } else {
        assert(now =~= ids);
    }
}

/// The place of an id is its first.
pub proof fn law_first_place(ids: Seq<Seq<char>>, id: Seq<char>, k: int)
    requires
        0 <= k <= ids.len(),
        forall|j: int| 0 <= j < k ==> #[trigger] ids[j] != id,
        k < ids.len() ==> ids[k] == id,
    ensures
        place(ids, id) == if k < ids.len() {
            k
        } else {
            -1
        },
    decreases ids.len(),
{
    if ids.len() > 0 {
        let init = ids.drop_last();
        if k < init.len() {
            assert(init[k] == ids[k]);
            assert forall|j: int| 0 <= j < k implies #[trigger] init[j] != id by {
                assert(init[j] == ids[j]);
            }
            law_first_place(init, id, k);
        } else {
            assert forall|j: int| 0 <= j < init.len() implies #[trigger] init[j] != id by {
                assert(init[j] == ids[j]);
            }
            law_first_place(init, id, init.len() as int);
            assert(ids[ids.len() - 1] == ids.last());
        }
    }
}

/// A preset that is checked is measured last; one that is unchecked is not measured, and
/// the others keep their order. Its row shows its place, from 1, and 0 where it has none.
pub proof fn law_order_of_measuring(ids: Seq<Seq<char>>, id: Seq<char>, k: int, r: BenchPresetRow, p: Preset)
    requires
        0 <= k <= ids.len(),
        forall|j: int| 0 <= j < k ==> #[trigger] ids[j] != id,
        k < ids.len() ==> ids[k] == id,
        p.id@ == id,
        bench_row_is(r, p, ids),
    ensures
        k == ids.len() ==> toggled_presets(ids, id) == ids.push(id) && r.order == 0 && !r.selected,
        k < ids.len() ==> toggled_presets(ids, id) == ids.remove(k) && r.order == k + 1 && r.selected,
        r.id@ == id,
{
    law_first_place(ids, id, k);
}

/// What is still known is kept in its order, and nothing else.
pub proof fn law_known_are_kept(ids: Seq<Seq<char>>, known: Seq<Seq<char>>, id: Seq<char>)
    ensures
        known.contains(id) ==> known_of(ids.push(id), known) == known_of(ids, known).push(id),
        !known.contains(id) ==> known_of(ids.push(id), known) == known_of(ids, known),
        known_of(Seq::empty(), known).len() == 0,
{
    assert(ids.push(id).drop_last() =~= ids);
}

/// A field gives the number that is typed in it, and its default where it is empty.
pub proof fn law_field_numbers(n: i32, d: i32)
    ensures
        number_or(dec_int(n as int), d) == n,
        number_or(Seq::empty(), d) == d,
{
    lemma_dec_int_shape(n as int);
    lemma_parse_dec_int(n as int, i32::MIN as int, i32::MAX as int);
    let e = Seq::<char>::empty();
    assert(crate::text::trim_start(e) == e);
    assert(crate::text::trim_end(e) == e);
}

} // verus!
