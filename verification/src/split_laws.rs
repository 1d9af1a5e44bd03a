//! What the edits of a GPU selection come to, as the next reader of the two strings
//! sees it.
use vstd::prelude::*;
use vstd::string::*;
use crate::gpu_split::{
    absorbed, all_at, block_cut, blocks_set, clamped, edited_counts, even_cut, ids_of,
    law_counts_sum_to_positions, law_even_cut_sums, law_render_reads_back,
    law_set_blocks_reads_back, lemma_ceil, lemma_counts_prefix, lemma_find_ignore_case_shape,
    lemma_picks_are_clean, lemma_prefix_sum_monotone, lemma_start_counts, lemma_tail_nonneg,
    lemma_zero_sum, made_auto, made_even, moved, nonneg, owned, picks_of, prefix_sum, probed_at,
    range_text, rendered, reweighted, share_text, start_counts, switched, table, tail_sum, toggled,
    total, unchecked_rows, weight_set, weighted, weights_in, with_weights, Layout, Row, Selection,
};
use crate::devices::{vram_text, Device};
use crate::rounding::{law_rounds_to_nearest, round_half_even};
use crate::text::{dec, dec_int, find_ignore_case, is_entry, lower_all};

verus! {

/// The picks of a selection as a reader sees them again, where there is something to
/// split.
proof fn lemma_two_read_back(ps: Seq<(Seq<char>, int)>)
    requires
        ps.len() >= 2,
        forall|i: int| 0 <= i < ps.len() ==> is_entry((#[trigger] ps[i]).0, ','),
        forall|i: int| 0 <= i < ps.len() ==> 0 <= (#[trigger] ps[i]).1 <= i32::MAX,
    ensures
        picks_of(rendered(ps)) == ps,
{
    law_render_reads_back(ps);
}

/// A device that is selected under one id alone stands that many places further on
/// after a move, or at the end it was moved towards; the others keep their order and
/// all keep their weights. A move of a device that is not selected changes nothing.
pub proof fn law_move_lands(sel: Selection, id: Seq<char>, delta: int, from: int)
    requires
        0 <= from < picks_of(sel).len(),
        lower_all(picks_of(sel)[from].0) == lower_all(id),
        forall|k: int| 0 <= k < from ==> lower_all((#[trigger] picks_of(sel)[k]).0) != lower_all(id),
    ensures
        ({
            let ps = picks_of(sel);
            let qs = picks_of(moved(sel, id, delta));
            let n = ps.len() as int;
            let to = if 0 <= from + delta < n {
                from + delta
            } else if delta < 0 {
                0
            } else {
                n - 1
            };
            &&& qs.len() == n
            &&& qs[to] == ps[from]
            &&& qs.remove(to) == ps.remove(from)
        }),
{
    let ps = picks_of(sel);
    let ids = ids_of(ps);
    lemma_find_ignore_case_shape(ids, id);
    assert(ids[from] == ps[from].0);
    assert(find_ignore_case(ids, id) == from) by {
        let at = find_ignore_case(ids, id);
        if 0 <= at < from {
            assert(ids[at] == ps[at].0);
        }
    }
    lemma_picks_are_clean(sel);
    let n = ps.len() as int;
    let to = if 0 <= from + delta < n {
        from + delta
    } else if delta < 0 {
        0
    } else {
        n - 1
    };
    if to != from {
        let qs = ps.remove(from).insert(to, ps[from]);
        assert forall|i: int| 0 <= i < qs.len() implies is_entry((#[trigger] qs[i]).0, ',') && 0
            <= qs[i].1 <= i32::MAX by {
            let j = if i == to {
                from
            } else {
                let k = if i < to {
                    i
                } else {
                    i - 1
                };
                if k < from {
                    k
                } else {
                    k + 1
                }
            };
            assert(qs[i] == ps[j]);
        }
        lemma_two_read_back(qs);
        assert(qs.remove(to) =~= ps.remove(from));
    }
}

/// A move and the move back leave the picks as they were, where no end was in the way
/// and the id is there once.
pub proof fn law_move_back(sel: Selection, id: Seq<char>, delta: int, from: int)
    requires
        0 <= from < picks_of(sel).len(),
        0 <= from + delta < picks_of(sel).len(),
        forall|k: int|
            0 <= k < picks_of(sel).len() ==> (lower_all((#[trigger] picks_of(sel)[k]).0) == lower_all(id)
                <==> k == from),
    ensures
        picks_of(moved(moved(sel, id, delta), id, -delta)) == picks_of(sel),
{
    let ps = picks_of(sel);
    let there = moved(sel, id, delta);
    let qs = picks_of(there);
    let to = from + delta;
    assert(lower_all(ps[from].0) == lower_all(id));
    law_move_lands(sel, id, delta, from);
    assert(qs[to] == ps[from]);
    assert forall|k: int| 0 <= k < to implies lower_all((#[trigger] qs[k]).0) != lower_all(id) by {
        assert(qs.remove(to)[k] == qs[k]);
        let j = if k < from {
            k
        } else {
            k + 1
        };
        assert(ps.remove(from)[k] == ps[j]);
    }
    law_move_lands(there, id, -delta, to);
    let rs = picks_of(moved(there, id, -delta));
    assert(rs =~= ps) by {
        assert forall|k: int| 0 <= k < ps.len() implies rs[k] == ps[k] by {
            if k < from {
                assert(rs.remove(from)[k] == rs[k] && ps.remove(from)[k] == ps[k]);
            } else if k > from {
                assert(rs.remove(from)[k - 1] == rs[k] && ps.remove(from)[k - 1] == ps[k]);
            }
        }
    }
}

/// An id that is not selected is moved, weighed and cut nowhere.
pub proof fn law_unknown_ids_change_nothing(sel: Selection, id: Seq<char>, n: int)
    requires
        forall|k: int|
            0 <= k < picks_of(sel).len() ==> lower_all((#[trigger] picks_of(sel)[k]).0) != lower_all(id),
    ensures
        moved(sel, id, n) == sel,
        weight_set(sel, id, n) == sel,
{
    let ids = ids_of(picks_of(sel));
    lemma_find_ignore_case_shape(ids, id);
    let at = find_ignore_case(ids, id);
    if at >= 0 {
        assert(ids[at] == picks_of(sel)[at].0);
    }
}

/// Checking a device puts it last. The others keep their places and weights, and where
/// they are weighted the new one gets a weight too.
pub proof fn law_checked_comes_last(sel: Selection, id: Seq<char>)
    requires
        is_entry(id, ','),
        forall|k: int|
            0 <= k < picks_of(sel).len() ==> lower_all((#[trigger] picks_of(sel)[k]).0) != lower_all(id),
    ensures
        ({
            let ps = picks_of(sel);
            let qs = picks_of(switched(sel, id));
            &&& qs.len() == ps.len() + 1
            &&& qs.last().0 == id
            &&& qs.drop_last() == ps
            &&& qs.last().1 == if exists|k: int| 0 <= k < ps.len() && (#[trigger] ps[k]).1 > 0 {
                1int
            } else {
                0int
            }
        }),
{
    let ps = picks_of(sel);
    let ids = ids_of(ps);
    lemma_find_ignore_case_shape(ids, id);
    let at = find_ignore_case(ids, id);
    if at >= 0 {
        assert(ids[at] == ps[at].0);
    }
    lemma_picks_are_clean(sel);
    let qs = toggled(ps, id);
    assert forall|i: int| 0 <= i < qs.len() implies is_entry((#[trigger] qs[i]).0, ',') && 0
        <= qs[i].1 <= i32::MAX by {
        if i < ps.len() {
            assert(qs[i] == ps[i]);
        }
    }
    law_render_reads_back(qs);
    if ps.len() == 0 {
        assert(!weighted(qs));
    }
    assert(qs.drop_last() =~= ps);
}

/// Unchecking a device takes it out, with its weight; the others stay as they are.
/// Of a single one that is left, the weight means nothing and is dropped.
pub proof fn law_unchecked_goes(sel: Selection, id: Seq<char>, at: int)
    requires
        0 <= at < picks_of(sel).len(),
        lower_all(picks_of(sel)[at].0) == lower_all(id),
        forall|k: int| 0 <= k < at ==> lower_all((#[trigger] picks_of(sel)[k]).0) != lower_all(id),
    ensures
        ids_of(picks_of(switched(sel, id))) == ids_of(picks_of(sel)).remove(at),
        picks_of(sel).len() >= 3 ==> picks_of(switched(sel, id)) == picks_of(sel).remove(at),
        picks_of(sel).len() <= 2 ==> switched(sel, id).tensor_split.len() == 0,
{
    let ps = picks_of(sel);
    let ids = ids_of(ps);
    lemma_find_ignore_case_shape(ids, id);
    assert(ids[at] == ps[at].0);
    let found = find_ignore_case(ids, id);
    if 0 <= found < at {
        assert(ids[found] == ps[found].0);
    }
    lemma_picks_are_clean(sel);
    let qs = ps.remove(at);
    assert forall|i: int| 0 <= i < qs.len() implies is_entry((#[trigger] qs[i]).0, ',') && 0
        <= qs[i].1 <= i32::MAX by {
        let j = if i < at {
            i
        } else {
            i + 1
        };
        assert(qs[i] == ps[j]);
    }
    law_render_reads_back(qs);
    assert(ids_of(qs) =~= ids.remove(at));
}

/// A weight that is set is the one that is read, 0 for less than nothing. The other
/// devices keep theirs, or have 1 where none had any.
pub proof fn law_weight_is_set(sel: Selection, id: Seq<char>, weight: int, at: int)
    requires
        picks_of(sel).len() >= 2,
        0 <= at < picks_of(sel).len(),
        lower_all(picks_of(sel)[at].0) == lower_all(id),
        weight <= i32::MAX,
    ensures
        ({
            let ps = picks_of(sel);
            let qs = picks_of(weight_set(sel, id, weight));
            &&& ids_of(qs) == ids_of(ps)
            &&& qs[at].1 == if weight >= 0 {
                weight
            } else {
                0
            }
            &&& forall|k: int|
                0 <= k < ps.len() && lower_all(ps[k].0) != lower_all(id) ==> (#[trigger] qs[k]).1
                    == if exists|j: int| 0 <= j < ps.len() && (#[trigger] ps[j]).1 > 0 {
                    ps[k].1
                } else {
                    1int
                }
        }),
{
    let ps = picks_of(sel);
    let ids = ids_of(ps);
    lemma_find_ignore_case_shape(ids, id);
    assert(ids[at] == ps[at].0);
    lemma_picks_are_clean(sel);
    let qs = reweighted(ps, id, weight);
    assert forall|i: int| 0 <= i < qs.len() implies is_entry((#[trigger] qs[i]).0, ',') && 0
        <= qs[i].1 <= i32::MAX by {
        assert(is_entry(ps[i].0, ',') && 0 <= ps[i].1 <= i32::MAX);
    }
    lemma_two_read_back(qs);
    assert(ids_of(qs) =~= ids);
}

/// An even selection has the same devices, each with a weight as great as the next
/// one's; an automatic one has the same devices and no weights.
pub proof fn law_even_and_auto(sel: Selection)
    ensures
        ids_of(picks_of(made_even(sel))) == ids_of(picks_of(sel)),
        ids_of(picks_of(made_auto(sel))) == ids_of(picks_of(sel)),
        made_auto(sel).tensor_split.len() == 0,
        picks_of(sel).len() >= 2 ==> forall|k: int|
            0 <= k < picks_of(sel).len() ==> (#[trigger] picks_of(made_even(sel))[k]).1 == 1,
{
    let ps = picks_of(sel);
    lemma_picks_are_clean(sel);
    assert forall|w: int| 0 <= w <= 1 implies ids_of(#[trigger] all_at(ps, w)) == ids_of(ps) by {
        assert(ids_of(all_at(ps, w)) =~= ids_of(ps));
    }
    let evens = all_at(ps, 1);
    let autos = all_at(ps, 0);
    assert forall|i: int| 0 <= i < ps.len() implies is_entry((#[trigger] evens[i]).0, ',') && 0
        <= evens[i].1 <= i32::MAX && is_entry(autos[i].0, ',') && autos[i].1 == 0 by {
        assert(is_entry(ps[i].0, ','));
    }
    law_render_reads_back(evens);
    law_render_reads_back(autos);
    assert(!weighted(autos));
    if ps.len() >= 2 {
        assert(evens[0].1 == 1);
    }
}

/// The blocks follow the weights: those of the first so many devices are the least
/// number that comes to their share, and each device has its share up to one block.
pub proof fn law_blocks_follow_weights(w: Seq<int>, count: int, k: int)
    requires
        block_cut(w, count) is Some,
        forall|i: int| 0 <= i < w.len() ==> 0 <= #[trigger] w[i],
        0 <= k <= w.len(),
    ensures
        ({
            let t = prefix_sum(w, w.len() as int);
            let c = block_cut(w, count)->0;
            prefix_sum(w, k) * count <= prefix_sum(c, k) * t < prefix_sum(w, k) * count + t
        }),
{
    assert(nonneg(w) =~= w);
    let c = block_cut(w, count)->0;
    assert(c =~= Seq::new(w.len(), |i: int| owned(w, count, i, count)));
    lemma_counts_prefix(w, count, c, k);
    let t = total(w);
    let x = prefix_sum(w, k) * count;
    let q = prefix_sum(c, k);
    lemma_ceil(q, x, t);
    lemma_ceil(q - 1, x, t);
    assert((q - 1) * t == q * t - t) by (nonlinear_arith);
}

/// Each device has its share of the positions, up to one.
pub proof fn law_each_has_its_share(w: Seq<int>, count: int, k: int)
    requires
        block_cut(w, count) is Some,
        forall|i: int| 0 <= i < w.len() ==> 0 <= #[trigger] w[i],
        0 <= k < w.len(),
    ensures
        ({
            let t = prefix_sum(w, w.len() as int);
            let b = block_cut(w, count)->0[k];
            &&& (b - 1) * t < w[k] * count < (b + 1) * t
            &&& w[k] == 0 ==> b == 0
        }),
{
    let t = prefix_sum(w, w.len() as int);
    let c = block_cut(w, count)->0;
    let b = c[k];
    law_blocks_follow_weights(w, count, k);
    law_blocks_follow_weights(w, count, k + 1);
    law_counts_sum_to_positions(w, count);
    let (p, q) = (prefix_sum(c, k), prefix_sum(w, k));
    assert(prefix_sum(c, k + 1) == p + b && prefix_sum(w, k + 1) == q + w[k]);
    let wk = w[k];
    assert((q + wk) * count == q * count + wk * count) by (nonlinear_arith);
    assert((p + b) * t == p * t + b * t) by (nonlinear_arith);
    assert((b - 1) * t == b * t - t && (b + 1) * t == b * t + t) by (nonlinear_arith);
    if wk == 0 {
        assert(wk * count == 0) by (nonlinear_arith)
            requires
                wk == 0,
        ;
        if b >= 1 {
            assert(b * t >= t) by (nonlinear_arith)
                requires
                    b >= 1,
                    t > 0,
            ;
        }
    }
}

/// Without weights an edit starts from an even cut: no two devices are more than one
/// position apart, and those at the back have the more.
pub proof fn law_even_cut_is_even(n: nat, count: int, i: int, j: int)
    requires
        0 < n <= i32::MAX,
        0 <= count,
        0 <= i <= j < n,
    ensures
        0 <= even_cut(n, count)[j] - even_cut(n, count)[i] <= 1,
        total(even_cut(n, count)) == count,
{
    law_even_cut_sums(n, count);
}

/// The blocks of a device are set to what was asked, within what there is. All blocks
/// stay handed out. One that grows takes from the back: a device gives only when those
/// behind it have none left, and none but the edited one gains. What one gives back
/// goes to the last of the others.
pub proof fn law_blocks_are_set(sel: Selection, id: Seq<char>, blocks: int, count: int, at: int)
    requires
        2 <= picks_of(sel).len() <= i32::MAX,
        0 <= at < picks_of(sel).len(),
        lower_all(picks_of(sel)[at].0) == lower_all(id),
        forall|k: int| 0 <= k < at ==> lower_all((#[trigger] picks_of(sel)[k]).0) != lower_all(id),
        0 < count <= i32::MAX,
    ensures
        ({
            let ps = picks_of(sel);
            let qs = picks_of(blocks_set(sel, id, blocks, count));
            let was = start_counts(ps, count);
            let now = weights_in(qs);
            &&& ids_of(qs) == ids_of(ps)
            &&& block_cut(now, count) == Some(now)
            &&& now.len() == ps.len()
            &&& now[at] == if blocks < 0 {
                0
            } else if blocks > count {
                count
            } else {
                blocks
            }
            &&& total(now) == count
            &&& now[at] >= was[at] ==> forall|j: int, k: int|
                0 <= j < k < ps.len() && j != at && k != at ==> now[j] <= was[j] && now[k] <= was[k] && (
                now[j] < was[j] ==> now[k] == 0)
            &&& now[at] < was[at] ==> forall|j: int|
                0 <= j < ps.len() && j != at && j != (if at == ps.len() - 1 {
                    ps.len() - 2
                } else {
                    ps.len() - 1
                }) ==> now[j] == was[j]
        }),
{
    let ps = picks_of(sel);
    let ids = ids_of(ps);
    lemma_find_ignore_case_shape(ids, id);
    assert(ids[at] == ps[at].0);
    let found = find_ignore_case(ids, id);
    if 0 <= found < at {
        assert(ids[found] == ps[found].0);
    }
    law_set_blocks_reads_back(sel, at, blocks, count);
    lemma_start_counts(ps, count);
    let was = start_counts(ps, count);
    let now = edited_counts(ps, at, blocks, count);
    let qs = with_weights(ps, now);
    assert(ids_of(qs) =~= ids);
    assert(weights_in(qs) =~= now);
    let delta = clamped(blocks, count) - was[at];
    assert(now == absorbed(was, at, delta));
    if delta >= 0 {
        assert forall|j: int, k: int|
            0 <= j < k < ps.len() && j != at && k != at implies now[j] <= was[j] && now[k] <= was[k]
            && (now[j] < was[j] ==> now[k] == 0) by {
            lemma_tail_nonneg(was, at, j + 1);
            lemma_tail_nonneg(was, at, k + 1);
            lemma_tail_decreases_to(was, at, j + 1, k);
            assert(tail_sum(was, at, k) == tail_sum(was, at, k + 1) + was[k]);
        }
    }
}

proof fn lemma_tail_decreases_to(c: Seq<int>, idx: int, j: int, k: int)
    requires
        0 <= j <= k <= c.len(),
        forall|i: int| 0 <= i < c.len() ==> 0 <= #[trigger] c[i],
    ensures
        tail_sum(c, idx, k) <= tail_sum(c, idx, j),
    decreases k - j,
{
    if j < k {
        assert(0 <= c[j]);
        lemma_tail_decreases_to(c, idx, j + 1, k);
    }
}

/// An edit of blocks starts from what the weights come to, and from an even cut where
/// there are none.
pub proof fn law_edit_starts_from_what_is_shown(ps: Seq<(Seq<char>, int)>, count: int)
    requires
        0 < count,
        forall|i: int| 0 <= i < ps.len() ==> 0 <= (#[trigger] ps[i]).1,
    ensures
        (exists|i: int| 0 <= i < ps.len() && (#[trigger] ps[i]).1 > 0) ==> block_cut(
            weights_in(ps),
            count,
        ) == Some(start_counts(ps, count)),
        (forall|i: int| 0 <= i < ps.len() ==> (#[trigger] ps[i]).1 == 0) ==> start_counts(ps, count)
            == even_cut(ps.len(), count),
{
    let w = weights_in(ps);
    assert forall|i: int| 0 <= i < w.len() implies 0 <= #[trigger] w[i] by {
        assert(w[i] == ps[i].1);
    }
    assert(nonneg(w) =~= w);
    if exists|i: int| 0 <= i < ps.len() && (#[trigger] ps[i]).1 > 0 {
        let i = choose|i: int| 0 <= i < ps.len() && (#[trigger] ps[i]).1 > 0;
        assert(w[i] > 0);
        lemma_prefix_sum_monotone(w, 0, i);
        lemma_prefix_sum_monotone(w, i + 1, w.len() as int);
    }
    if forall|i: int| 0 <= i < ps.len() ==> (#[trigger] ps[i]).1 == 0 {
        assert forall|i: int| 0 <= i < w.len() implies #[trigger] w[i] == 0 by {
            assert(w[i] == ps[i].1);
        }
        lemma_zero_sum(w, w.len() as int);
    }
}

/// A run of positions is labelled by its first and last block. The output layer, which
/// is the last position of all, is named in the label of the run that reaches it, and
/// in no other.
pub proof fn law_range_labels(first: int, c: int, output: int)
    requires
        0 <= first,
        first + c - 1 <= output,
    ensures
        ({
            let text = range_text(first, c, output);
            let blocks = if c >= 1 && first + c - 1 == output {
                c - 1
            } else {
                c
            };
            let named = if blocks <= 0 {
                Seq::empty()
            } else if blocks == 1 {
                "block "@ + dec_int(first)
            } else {
                "blocks "@ + dec_int(first) + "-"@ + dec_int(first + blocks - 1)
            };
            &&& c <= 0 ==> text == "nothing"@
            &&& c >= 1 && blocks == c ==> text == named
            &&& c >= 2 && blocks < c ==> text == named + " + output"@
            &&& c == 1 && blocks < c ==> text == "output layer"@
        }),
{
}

/// The share of a device is the percentage nearest to its part of the weights.
pub proof fn law_share_is_a_percentage(n: nat, weight: int, sum: int)
    requires
        n >= 2,
        0 <= weight <= sum,
        0 < sum,
    ensures
        exists|p: nat|
            #![trigger dec(p)]
            share_text(n, weight, sum) == dec(p) + "%"@ && -sum <= 2 * (p * sum - weight * 100) <= sum
                && p <= 100,
{
    let num = (weight * 100) as nat;
    law_rounds_to_nearest(num, sum as nat);
    let p = round_half_even(num, sum as nat);
    assert(share_text(n, weight, sum) == dec(p) + "%"@);
    assert(p <= 100) by (nonlinear_arith)
        requires
            2 * (p * sum - weight * 100) <= sum,
            0 <= weight <= sum,
            0 < sum,
    ;
}

/// One device has all, and devices without weights share as the loader sees fit.
pub proof fn law_share_without_weights(n: nat, weight: int, sum: int)
    ensures
        n <= 1 ==> share_text(n, weight, sum) == "100%"@,
        n >= 2 && sum <= 0 ==> share_text(n, weight, sum) == "auto"@,
{
}

/// Whether no pick has an id, in any case of its letters.
pub open spec fn is_not_picked(ps: Seq<(Seq<char>, int)>, id: Seq<char>) -> bool {
    forall|k: int| 0 <= k < ps.len() ==> lower_all((#[trigger] ps[k]).0) != lower_all(id)
}

/// Whether a device is one that could be picked and is not.
pub open spec fn is_spare(ps: Seq<(Seq<char>, int)>, d: Device) -> bool {
    lower_all(d.id) != lower_all("CPU"@) && is_not_picked(ps, d.id)
}

/// Whether a row is that of a device that is not selected.
pub open spec fn is_row_of(r: Row, d: Device) -> bool {
    !r.enabled && r.weight == 0 && r.detected && r.id == d.id && r.name == d.name
}

/// Whether a row is that of a detected device that could be picked and is not.
pub open spec fn shows_spare(ds: Seq<Device>, ps: Seq<(Seq<char>, int)>, r: Row) -> bool {
    exists|d: int| 0 <= d < ds.len() && is_spare(ps, #[trigger] ds[d]) && is_row_of(r, ds[d])
}

/// Whether a device has a row, from a place on.
pub open spec fn has_row(rows: Seq<Row>, from: int, d: Device) -> bool {
    exists|i: int| from <= i < rows.len() && is_row_of(#[trigger] rows[i], d)
}

/// The table begins with the selected devices, in split order, each with its weight.
/// Then come the detected devices that are not selected and are not the CPU: all of
/// them and nothing else.
pub proof fn law_table_shows_every_device(
    ds: Seq<Device>,
    ps: Seq<(Seq<char>, int)>,
    layout: Option<Layout>,
)
    ensures
        table(ds, ps, layout).len() >= ps.len(),
        forall|i: int|
            #![trigger table(ds, ps, layout)[i]]
            0 <= i < ps.len() ==> table(ds, ps, layout)[i].id == ps[i].0 && table(ds, ps, layout)[i].weight
                == ps[i].1 && table(ds, ps, layout)[i].enabled,
        forall|i: int|
            ps.len() <= i < table(ds, ps, layout).len() ==> shows_spare(
                ds,
                ps,
                #[trigger] table(ds, ps, layout)[i],
            ),
        forall|d: int|
            0 <= d < ds.len() && is_spare(ps, #[trigger] ds[d]) ==> has_row(
                table(ds, ps, layout),
                ps.len() as int,
                ds[d],
            ),
{
    lemma_unchecked_rows(ds, ps);
    let rows = table(ds, ps, layout);
    let n = ps.len() as int;
    let tail = unchecked_rows(ds, ps);
    assert forall|i: int| n <= i < rows.len() implies shows_spare(ds, ps, #[trigger] rows[i]) by {
        assert(rows[i] == tail[i - n]);
    }
    assert forall|d: int| 0 <= d < ds.len() && is_spare(ps, #[trigger] ds[d]) implies has_row(
        rows,
        n,
        ds[d],
    ) by {
        assert(has_row(tail, 0, ds[d]));
        let j = choose|j: int| 0 <= j < tail.len() && is_row_of(#[trigger] tail[j], ds[d]);
        assert(rows[n + j] == tail[j]);
    }
}

proof fn lemma_unchecked_rows(ds: Seq<Device>, ps: Seq<(Seq<char>, int)>)
    ensures
        forall|i: int|
            0 <= i < unchecked_rows(ds, ps).len() ==> shows_spare(
                ds,
                ps,
                #[trigger] unchecked_rows(ds, ps)[i],
            ),
        forall|d: int|
            0 <= d < ds.len() && is_spare(ps, #[trigger] ds[d]) ==> has_row(
                unchecked_rows(ds, ps),
                0,
                ds[d],
            ),
    decreases ds.len(),
{
    if ds.len() > 0 {
        let init = ds.drop_last();
        lemma_unchecked_rows(init, ps);
        let before = unchecked_rows(init, ps);
        let tail = unchecked_rows(ds, ps);
        let last = ds.last();
        lemma_find_ignore_case_shape(ids_of(ps), last.id);
        let at = find_ignore_case(ids_of(ps), last.id);
        assert((at < 0) == is_not_picked(ps, last.id)) by {
            if at >= 0 {
                assert(ids_of(ps)[at] == ps[at].0);
            } else {
                assert forall|k: int| 0 <= k < ps.len() implies lower_all((#[trigger] ps[k]).0)
                    != lower_all(last.id) by {
                    assert(ids_of(ps)[k] == ps[k].0);
                }
            }
        }
        assert forall|i: int| 0 <= i < tail.len() implies shows_spare(ds, ps, #[trigger] tail[i]) by {
            if i < before.len() {
                assert(tail[i] == before[i]);
                assert(shows_spare(init, ps, before[i]));
                let d = choose|d: int|
                    0 <= d < init.len() && is_spare(ps, #[trigger] init[d]) && is_row_of(
                        before[i],
                        init[d],
                    );
                assert(ds[d] == init[d]);
            } else {
                assert(ds[ds.len() - 1] == last);
            }
        }
        assert forall|d: int| 0 <= d < ds.len() && is_spare(ps, #[trigger] ds[d]) implies has_row(
            tail,
            0,
            ds[d],
        ) by {
            if d < init.len() {
                assert(init[d] == ds[d]);
                assert(has_row(before, 0, init[d]));
                let j = choose|j: int| 0 <= j < before.len() && is_row_of(#[trigger] before[j], init[d]);
                assert(tail[j] == before[j]);
            } else {
                assert(is_row_of(tail[before.len() as int], last));
            }
        }
    }
}

/// The row of a selected device has the name that was detected under its id, or says
/// that there is none; the blocks of the rows come to all positions.
pub proof fn law_table_describes_the_picks(
    ds: Seq<Device>,
    ps: Seq<(Seq<char>, int)>,
    layout: Option<Layout>,
    i: int,
)
    requires
        0 <= i < ps.len(),
    ensures
        ({
            let row = table(ds, ps, layout)[i];
            let known = exists|d: int|
                0 <= d < ds.len() && lower_all((#[trigger] ds[d]).id) == lower_all(ps[i].0) && lower_all(
                    ds[d].id,
                ) != lower_all("CPU"@);
            &&& row.detected == known
            &&& !known ==> row.name == "(not detected)"@ && row.vram.len() == 0
            &&& known ==> exists|d: int|
                0 <= d < ds.len() && lower_all((#[trigger] ds[d]).id) == lower_all(ps[i].0) && row.name
                    == ds[d].name && row.vram == vram_text(ds[d])
            &&& layout is None ==> row.blocks == 0 && row.blocks_label.len() == 0
            &&& layout matches Some(l) ==> block_cut(weights_in(ps), l.count as int) matches Some(c)
                ==> row.blocks == c[i] && row.blocks_label == range_text(
                l.start + prefix_sum(c, i),
                c[i],
                l.start + l.count - 1,
            )
        }),
{
    lemma_probed_at(ds, ps[i].0);
}

proof fn lemma_probed_at(ds: Seq<Device>, id: Seq<char>)
    ensures
        -1 <= probed_at(ds, id) < ds.len(),
        probed_at(ds, id) >= 0 ==> lower_all(ds[probed_at(ds, id)].id) == lower_all(id) && lower_all(
            ds[probed_at(ds, id)].id,
        ) != lower_all("CPU"@),
        probed_at(ds, id) < 0 ==> forall|d: int|
            0 <= d < ds.len() ==> lower_all((#[trigger] ds[d]).id) != lower_all(id) || lower_all(
                ds[d].id,
            ) == lower_all("CPU"@),
    decreases ds.len(),
{
    if ds.len() > 0 {
        let init = ds.drop_last();
        lemma_probed_at(init, id);
        if probed_at(ds, id) < 0 {
            assert forall|d: int| 0 <= d < ds.len() implies lower_all((#[trigger] ds[d]).id)
                != lower_all(id) || lower_all(ds[d].id) == lower_all("CPU"@) by {
                if d < init.len() {
                    assert(ds[d] == init[d]);
                }
            }
        }
    }
}

} // verus!
