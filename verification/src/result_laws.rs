//! What the table of results holds of the points, and what a run's file keeps of them.
use vstd::prelude::*;
use vstd::string::*;
use crate::json::{texts_json, JsonView};
use crate::results::{
    base_at, differ, lemma_point_at, mismatch_warning, noted, place_in, point_at, recorded, result_table, row_of,
    rows_at_place, rows_of_test, rows_of_tests, tests_of, PointView, RowView,
};
use crate::runs::{measured_at, revised, stamp_in, stamps_in, texts_in, with_missing, MeasuredView};
use crate::text::text_less;

verus! {

// ── The table ────────────────────────────────────────────────────────────

/// The tests of the points: each of them is there, none of them twice, and nothing
/// else.
pub proof fn law_tests_are_listed(ps: Seq<PointView>)
    ensures
        forall|i: int| 0 <= i < ps.len() ==> tests_of(ps).contains((#[trigger] ps[i]).test),
        forall|i: int, j: int|
            0 <= i < j < tests_of(ps).len() ==> #[trigger] tests_of(ps)[i] != #[trigger] tests_of(ps)[j],
        forall|i: int|
            0 <= i < tests_of(ps).len() ==> is_test_of(ps, #[trigger] tests_of(ps)[i]),
    decreases ps.len(),
{
    if ps.len() > 0 {
        let init = ps.drop_last();
        law_tests_are_listed(init);
        let before = tests_of(init);
        let now = tests_of(ps);
        let last = ps.last().test;
        assert(ps[ps.len() - 1] == ps.last());
        assert forall|i: int| 0 <= i < ps.len() implies now.contains((#[trigger] ps[i]).test) by {
            if i < init.len() {
                assert(init[i] == ps[i]);
                let k = choose|k: int| 0 <= k < before.len() && before[k] == init[i].test;
                assert(now[k] == ps[i].test);
            } else if !before.contains(last) {
                assert(now[before.len() as int] == last);
            }
        }
        assert forall|i: int, j: int| 0 <= i < j < now.len() implies #[trigger] now[i] != #[trigger] now[j] by {
            if j == before.len() {
                assert(before.contains(before[i]));
            }
        }
        assert forall|i: int| 0 <= i < now.len() implies is_test_of(ps, #[trigger] now[i]) by {
            if i < before.len() {
                assert(is_test_of(init, before[i]));
                let k = choose|k: int| 0 <= k < init.len() && (#[trigger] init[k]).test == before[i];
                assert(ps[k] == init[k]);
            }
        }
    }
}

/// Whether a point is of a test.
pub open spec fn is_test_of(ps: Seq<PointView>, test: Seq<char>) -> bool {
    exists|k: int| 0 <= k < ps.len() && (#[trigger] ps[k]).test == test
}

proof fn lemma_in_place(
    ps: Seq<PointView>,
    order: Seq<Seq<char>>,
    ratios: Seq<Seq<char>>,
    place: int,
    n: int,
    i: int,
)
    requires
        0 <= i < n <= ps.len(),
        place_in(order, ps[i].preset) == place,
    ensures
        rows_at_place(ps, order, ratios, ps[i].test, place, n).contains(row_of(ps, order, ratios, i)),
    decreases n,
{
    let test = ps[i].test;
    let row = row_of(ps, order, ratios, i);
    let now = rows_at_place(ps, order, ratios, test, place, n);
    let before = rows_at_place(ps, order, ratios, test, place, n - 1);
    if i == n - 1 {
        assert(now[now.len() - 1] == row);
    } else {
        lemma_in_place(ps, order, ratios, place, n - 1, i);
        let k = choose|k: int| 0 <= k < before.len() && before[k] == row;
        assert(now[k] == row);
    }
}

proof fn lemma_place_in(order: Seq<Seq<char>>, preset: Seq<char>)
    ensures
        0 <= place_in(order, preset) <= order.len(),
    decreases order.len(),
{
    if order.len() > 0 && order[0] != preset {
        lemma_place_in(order.skip(1), preset);
    }
}

/// The place of a preset is its own in the order, and behind all where it has none.
pub proof fn law_place_is_the_order(order: Seq<Seq<char>>, k: int, preset: Seq<char>)
    requires
        0 <= k <= order.len(),
        forall|j: int| 0 <= j < k ==> #[trigger] order[j] != preset,
        k < order.len() ==> order[k] == preset,
    ensures
        place_in(order, preset) == k,
    decreases order.len(),
{
    if k > 0 {
        let rest = order.skip(1);
        assert(order[0] != preset);
        assert forall|j: int| 0 <= j < k - 1 implies #[trigger] rest[j] != preset by {
            assert(rest[j] == order[j + 1]);
        }
        if k < order.len() {
            assert(rest[k - 1] == order[k]);
        }
        law_place_is_the_order(rest, k - 1, preset);
    }
}

proof fn lemma_in_test(
    ps: Seq<PointView>,
    order: Seq<Seq<char>>,
    ratios: Seq<Seq<char>>,
    places: int,
    i: int,
)
    requires
        0 <= i < ps.len(),
        place_in(order, ps[i].preset) < places,
    ensures
        rows_of_test(ps, order, ratios, ps[i].test, places).contains(row_of(ps, order, ratios, i)),
    decreases places,
{
    lemma_place_in(order, ps[i].preset);
    let test = ps[i].test;
    let row = row_of(ps, order, ratios, i);
    let a = rows_of_test(ps, order, ratios, test, places - 1);
    let b = rows_at_place(ps, order, ratios, test, places - 1, ps.len() as int);
    let now = rows_of_test(ps, order, ratios, test, places);
    assert(now == a + b);
    if place_in(order, ps[i].preset) == places - 1 {
        lemma_in_place(ps, order, ratios, places - 1, ps.len() as int, i);
        let k = choose|k: int| 0 <= k < b.len() && b[k] == row;
        assert(now[a.len() + k] == row);
    } else {
        lemma_in_test(ps, order, ratios, places - 1, i);
        let k = choose|k: int| 0 <= k < a.len() && a[k] == row;
        assert(now[k] == row);
    }
}

proof fn lemma_in_tests(
    ps: Seq<PointView>,
    order: Seq<Seq<char>>,
    ratios: Seq<Seq<char>>,
    n: int,
    t: int,
    i: int,
)
    requires
        0 <= i < ps.len(),
        0 <= t < n <= tests_of(ps).len(),
        tests_of(ps)[t] == ps[i].test,
    ensures
        rows_of_tests(ps, order, ratios, n).contains(row_of(ps, order, ratios, i)),
    decreases n,
{
    let row = row_of(ps, order, ratios, i);
    let a = rows_of_tests(ps, order, ratios, n - 1);
    let b = rows_of_test(ps, order, ratios, tests_of(ps)[n - 1], order.len() as int + 1);
    let now = rows_of_tests(ps, order, ratios, n);
    assert(now == a + b);
    if t == n - 1 {
        lemma_place_in(order, ps[i].preset);
        lemma_in_test(ps, order, ratios, order.len() as int + 1, i);
        let k = choose|k: int| 0 <= k < b.len() && b[k] == row;
        assert(now[a.len() + k] == row);
    } else {
        lemma_in_tests(ps, order, ratios, n - 1, t, i);
        let k = choose|k: int| 0 <= k < a.len() && a[k] == row;
        assert(now[k] == row);
    }
}

/// Every point has a row, with what was measured. The row has the ratio to the first
/// preset where that one has a positive rate for the test, and a dash where it has not.
pub proof fn law_every_point_has_a_row(
    ps: Seq<PointView>,
    order: Seq<Seq<char>>,
    ratios: Seq<Seq<char>>,
    i: int,
    b: int,
)
    requires
        0 <= i < ps.len(),
        order.len() > 0,
        0 <= b < ps.len() ==> ps[b].preset == order[0] && ps[b].test == ps[i].test && forall|k: int|
            b < k < ps.len() ==> !((#[trigger] ps[k]).preset == order[0] && ps[k].test == ps[i].test),
        !(0 <= b < ps.len()) ==> forall|k: int|
            0 <= k < ps.len() ==> !((#[trigger] ps[k]).preset == order[0] && ps[k].test == ps[i].test),
    ensures
        result_table(ps, order, ratios).contains(
            RowView {
                test: ps[i].test,
                preset: ps[i].preset,
                mean: ps[i].mean,
                sd: ps[i].sd,
                samples: ps[i].n,
                ratio: if 0 <= b < ps.len() && ps[b].rank > 0 {
                    ratios[i]
                } else {
                    "-"@
                },
                note: ps[i].note,
            },
        ),
{
    law_tests_are_listed(ps);
    let t = choose|t: int| 0 <= t < tests_of(ps).len() && tests_of(ps)[t] == ps[i].test;
    lemma_in_tests(ps, order, ratios, tests_of(ps).len() as int, t, i);
    lemma_base_at(ps, order[0], ps[i].test, b);
}

proof fn lemma_base_at(ps: Seq<PointView>, baseline: Seq<char>, test: Seq<char>, b: int)
    requires
        0 <= b < ps.len() ==> ps[b].preset == baseline && ps[b].test == test && forall|k: int|
            b < k < ps.len() ==> !((#[trigger] ps[k]).preset == baseline && ps[k].test == test),
        !(0 <= b < ps.len()) ==> forall|k: int|
            0 <= k < ps.len() ==> !((#[trigger] ps[k]).preset == baseline && ps[k].test == test),
    ensures
        0 <= b < ps.len() ==> base_at(ps, baseline, test) == b,
        !(0 <= b < ps.len()) ==> base_at(ps, baseline, test) == -1,
    decreases ps.len(),
{
    if ps.len() > 0 {
        let init = ps.drop_last();
        let last = ps[ps.len() - 1];
        assert(ps.last() == last);
        if b == ps.len() - 1 {
        } else if 0 <= b < ps.len() {
            assert(!(last.preset == baseline && last.test == test));
            assert(init[b] == ps[b]);
            assert forall|k: int| b < k < init.len() implies !((#[trigger] init[k]).preset == baseline
                && init[k].test == test) by {
                assert(init[k] == ps[k]);
            }
            lemma_base_at(init, baseline, test, b);
        } else {
            assert(!(last.preset == baseline && last.test == test));
            assert forall|k: int| 0 <= k < init.len() implies !((#[trigger] init[k]).preset == baseline
                && init[k].test == test) by {
                assert(init[k] == ps[k]);
            }
            lemma_base_at(init, baseline, test, -1);
        }
    }
}

/// Whether a row is of a test and of a preset at one of the first so many places.
spec fn is_among(order: Seq<Seq<char>>, r: RowView, test: Seq<char>, places: int) -> bool {
    r.test == test && place_in(order, r.preset) < places
}

proof fn lemma_rows_at_place(
    ps: Seq<PointView>,
    order: Seq<Seq<char>>,
    ratios: Seq<Seq<char>>,
    test: Seq<char>,
    place: int,
    n: int,
)
    requires
        n <= ps.len(),
    ensures
        forall|k: int|
            0 <= k < rows_at_place(ps, order, ratios, test, place, n).len() ==> (#[trigger] rows_at_place(
                ps,
                order,
                ratios,
                test,
                place,
                n,
            )[k]).test == test && place_in(
                order,
                rows_at_place(ps, order, ratios, test, place, n)[k].preset,
            ) == place,
    decreases n,
{
    if n > 0 {
        lemma_rows_at_place(ps, order, ratios, test, place, n - 1);
        let before = rows_at_place(ps, order, ratios, test, place, n - 1);
        let now = rows_at_place(ps, order, ratios, test, place, n);
        assert forall|k: int| 0 <= k < now.len() implies (#[trigger] now[k]).test == test && place_in(
            order,
            now[k].preset,
        ) == place by {
            if k < before.len() {
                assert(now[k] == before[k]);
            }
        }
    }
}

proof fn lemma_rows_of_test(
    ps: Seq<PointView>,
    order: Seq<Seq<char>>,
    ratios: Seq<Seq<char>>,
    test: Seq<char>,
    places: int,
)
    ensures
        forall|k: int|
            0 <= k < rows_of_test(ps, order, ratios, test, places).len() ==> is_among(
                order,
                #[trigger] rows_of_test(ps, order, ratios, test, places)[k],
                test,
                places,
            ),
        forall|j: int, k: int|
            0 <= j < k < rows_of_test(ps, order, ratios, test, places).len() ==> place_in(
                order,
                (#[trigger] rows_of_test(ps, order, ratios, test, places)[j]).preset,
            ) <= place_in(
                order,
                (#[trigger] rows_of_test(ps, order, ratios, test, places)[k]).preset,
            ),
    decreases places,
{
    if places > 0 {
        lemma_rows_of_test(ps, order, ratios, test, places - 1);
        lemma_rows_at_place(ps, order, ratios, test, places - 1, ps.len() as int);
        let a = rows_of_test(ps, order, ratios, test, places - 1);
        let b = rows_at_place(ps, order, ratios, test, places - 1, ps.len() as int);
        let now = rows_of_test(ps, order, ratios, test, places);
        assert(now == a + b);
        assert forall|k: int| 0 <= k < now.len() implies is_among(order, #[trigger] now[k], test, places) by {
            if k < a.len() {
                assert(now[k] == a[k]);
            } else {
                assert(now[k] == b[k - a.len()]);
            }
        }
        assert forall|j: int, k: int| 0 <= j < k < now.len() implies place_in(
            order,
            (#[trigger] now[j]).preset,
        ) <= place_in(order, (#[trigger] now[k]).preset) by {
            if k < a.len() {
                assert(now[j] == a[j] && now[k] == a[k]);
            } else if j < a.len() {
                assert(now[j] == a[j] && now[k] == b[k - a.len()]);
                assert(is_among(order, a[j], test, places - 1));
            } else {
                assert(now[j] == b[j - a.len()] && now[k] == b[k - a.len()]);
            }
        }
    }
}

/// Whether a row of a test comes before another one: its test does, or it is the same
/// and the preset does.
pub open spec fn in_order(ps: Seq<PointView>, order: Seq<Seq<char>>, a: RowView, b: RowView) -> bool {
    ||| (a.test == b.test && place_in(order, a.preset) <= place_in(order, b.preset))
    ||| exists|i: int, j: int|
        0 <= i < j < tests_of(ps).len() && #[trigger] tests_of(ps)[i] == a.test && #[trigger] tests_of(
            ps,
        )[j] == b.test
}

/// The rows of each test stand together, in the order in which the tests first appear,
/// and those of a test in the order of the presets.
pub proof fn law_rows_are_in_order(
    ps: Seq<PointView>,
    order: Seq<Seq<char>>,
    ratios: Seq<Seq<char>>,
    j: int,
    k: int,
)
    requires
        0 <= j < k < result_table(ps, order, ratios).len(),
    ensures
        in_order(
            ps,
            order,
            result_table(ps, order, ratios)[j],
            result_table(ps, order, ratios)[k],
        ),
{
    lemma_tests_in_order(ps, order, ratios, tests_of(ps).len() as int, j, k);
}

proof fn lemma_tests_in_order(
    ps: Seq<PointView>,
    order: Seq<Seq<char>>,
    ratios: Seq<Seq<char>>,
    n: int,
    j: int,
    k: int,
)
    requires
        n <= tests_of(ps).len(),
        0 <= j < k < rows_of_tests(ps, order, ratios, n).len(),
    ensures
        in_order(
            ps,
            order,
            rows_of_tests(ps, order, ratios, n)[j],
            rows_of_tests(ps, order, ratios, n)[k],
        ),
    decreases n,
{
    let a = rows_of_tests(ps, order, ratios, n - 1);
    let test = tests_of(ps)[n - 1];
    let b = rows_of_test(ps, order, ratios, test, order.len() as int + 1);
    let now = rows_of_tests(ps, order, ratios, n);
    assert(now == a + b);
    lemma_rows_of_test(ps, order, ratios, test, order.len() as int + 1);
    if k < a.len() {
        lemma_tests_in_order(ps, order, ratios, n - 1, j, k);
        assert(now[j] == a[j] && now[k] == a[k]);
    } else if j < a.len() {
        lemma_row_has_test(ps, order, ratios, n - 1, j);
        assert(now[j] == a[j] && now[k] == b[k - a.len()]);
        assert(is_among(order, b[k - a.len()], test, order.len() as int + 1));
        let i = choose|i: int| 0 <= i < n - 1 && #[trigger] tests_of(ps)[i] == a[j].test;
        assert(tests_of(ps)[i] == now[j].test && tests_of(ps)[n - 1] == now[k].test);
    } else {
        assert(now[j] == b[j - a.len()] && now[k] == b[k - a.len()]);
        assert(is_among(order, b[j - a.len()], test, order.len() as int + 1));
        assert(is_among(order, b[k - a.len()], test, order.len() as int + 1));
    }
}

proof fn lemma_row_has_test(
    ps: Seq<PointView>,
    order: Seq<Seq<char>>,
    ratios: Seq<Seq<char>>,
    n: int,
    j: int,
)
    requires
        n <= tests_of(ps).len(),
        0 <= j < rows_of_tests(ps, order, ratios, n).len(),
    ensures
        exists|i: int|
            0 <= i < n && #[trigger] tests_of(ps)[i] == rows_of_tests(ps, order, ratios, n)[j].test,
    decreases n,
{
    let a = rows_of_tests(ps, order, ratios, n - 1);
    let test = tests_of(ps)[n - 1];
    let b = rows_of_test(ps, order, ratios, test, order.len() as int + 1);
    let now = rows_of_tests(ps, order, ratios, n);
    assert(now == a + b);
    if j < a.len() {
        lemma_row_has_test(ps, order, ratios, n - 1, j);
        let i = choose|i: int| 0 <= i < n - 1 && #[trigger] tests_of(ps)[i] == a[j].test;
        assert(now[j] == a[j]);
        assert(tests_of(ps)[i] == now[j].test);
    } else {
        lemma_rows_of_test(ps, order, ratios, test, order.len() as int + 1);
        assert(now[j] == b[j - a.len()]);
        assert(is_among(order, b[j - a.len()], test, order.len() as int + 1));
        assert(tests_of(ps)[n - 1] == now[j].test);
    }
}

// ── Revisions ────────────────────────────────────────────────────────────

/// A point that is recorded is there, in the place of the one it revises or behind all;
/// every point of another preset or test stays where it was.
pub proof fn law_recording_revises_one(ps: Seq<PointView>, p: PointView)
    ensures
        ({
            let now = recorded(ps, p);
            &&& now.contains(p)
            &&& ps.len() <= now.len() <= ps.len() + 1
            &&& forall|k: int|
                0 <= k < ps.len() && !((#[trigger] ps[k]).preset == p.preset && ps[k].test == p.test)
                    ==> now[k] == ps[k]
            &&& (exists|k: int|
                0 <= k < ps.len() && (#[trigger] ps[k]).preset == p.preset && ps[k].test == p.test) ==> now.len()
                == ps.len()
        }),
{
    lemma_point_at(ps, p.preset, p.test);
    let at = point_at(ps, p.preset, p.test);
    let now = recorded(ps, p);
    if at >= 0 {
        assert(now[at] == p);
    } else {
        assert(now[ps.len() as int] == p);
    }
}

proof fn lemma_measured_at(ps: Seq<MeasuredView>, preset: Seq<char>, test: Seq<char>)
    ensures
        -1 <= measured_at(ps, preset, test) < ps.len(),
        measured_at(ps, preset, test) >= 0 ==> ps[measured_at(ps, preset, test)].preset == preset
            && ps[measured_at(ps, preset, test)].test == test,
        measured_at(ps, preset, test) < 0 ==> forall|k: int|
            0 <= k < ps.len() ==> !((#[trigger] ps[k]).preset == preset && ps[k].test == test),
    decreases ps.len(),
{
    if ps.len() > 0 {
        let init = ps.drop_last();
        lemma_measured_at(init, preset, test);
        if measured_at(ps, preset, test) < 0 {
            assert forall|k: int| 0 <= k < ps.len() implies !((#[trigger] ps[k]).preset == preset
                && ps[k].test == test) by {
                if k < init.len() {
                    assert(ps[k] == init[k]);
                }
            }
        }
    }
}

/// A line of a point counts from then on: the point is the line's, and every point of
/// another preset or test stays where it was.
pub proof fn law_line_revises_one(ps: Seq<MeasuredView>, p: MeasuredView)
    ensures
        ({
            let now = revised(ps, p);
            &&& now.contains(p)
            &&& ps.len() <= now.len() <= ps.len() + 1
            &&& forall|k: int|
                0 <= k < ps.len() && !((#[trigger] ps[k]).preset == p.preset && ps[k].test == p.test)
                    ==> now[k] == ps[k]
            &&& (exists|k: int|
                0 <= k < ps.len() && (#[trigger] ps[k]).preset == p.preset && ps[k].test == p.test) ==> now.len()
                == ps.len()
        }),
{
    lemma_measured_at(ps, p.preset, p.test);
    let at = measured_at(ps, p.preset, p.test);
    let now = revised(ps, p);
    if at >= 0 {
        assert(now[at] == p);
    } else {
        assert(now[ps.len() as int] == p);
    }
}

/// The presets of a run begin with those that it named, in their order, and hold every
/// one that a point names.
pub proof fn law_no_preset_is_missing(presets: Seq<Seq<char>>, ps: Seq<MeasuredView>)
    ensures
        ({
            let all = with_missing(presets, ps);
            &&& all.len() >= presets.len()
            &&& all.take(presets.len() as int) == presets
            &&& forall|k: int| 0 <= k < ps.len() ==> all.contains((#[trigger] ps[k]).preset)
        }),
    decreases ps.len(),
{
    let all = with_missing(presets, ps);
    if ps.len() > 0 {
        let init = ps.drop_last();
        law_no_preset_is_missing(presets, init);
        let before = with_missing(presets, init);
        let last = ps.last().preset;
        assert(ps[ps.len() - 1] == ps.last());
        assert(all.take(presets.len() as int) =~= before.take(presets.len() as int));
        assert forall|k: int| 0 <= k < ps.len() implies all.contains((#[trigger] ps[k]).preset) by {
            if k < init.len() {
                assert(init[k] == ps[k]);
                let j = choose|j: int| 0 <= j < before.len() && before[j] == ps[k].preset;
                assert(all[j] == ps[k].preset);
            } else if !before.contains(last) {
                assert(all[before.len() as int] == last);
            }
        }
    } else {
        assert(all.take(presets.len() as int) =~= presets);
    }
}

/// A list of texts reads back from its JSON.
pub proof fn law_texts_read_back(v: Seq<Seq<char>>)
    ensures
        texts_json(v) matches JsonView::List(l) && texts_in(l) == v,
    decreases v.len(),
{
    let l = texts_json(v)->List_0;
    if v.len() > 0 {
        let init = v.drop_last();
        law_texts_read_back(init);
        assert(l.drop_last() =~= texts_json(init)->List_0);
        assert(l.last() == JsonView::Text(v.last()));
        assert(init.push(v.last()) =~= v);
    } else {
        assert(texts_in(l) =~= v);
    }
}

/// The runs that are found are those of the files whose names hold a stamp, each of
/// them.
pub proof fn law_every_run_is_found(names: Seq<Seq<char>>, k: int)
    requires
        0 <= k < names.len(),
        stamp_in(names[k]) is Some,
    ensures
        stamps_in(names).contains(stamp_in(names[k])->0),
    decreases names.len(),
{
    let init = names.drop_last();
    let now = stamps_in(names);
    let before = stamps_in(init);
    let s = stamp_in(names[k])->0;
    if k < init.len() {
        assert(init[k] == names[k]);
        law_every_run_is_found(init, k);
        let j = choose|j: int| 0 <= j < before.len() && before[j] == s;
        assert(now[j] == s);
    } else {
        assert(now[before.len() as int] == s);
    }
}

// ── Settings that differ ─────────────────────────────────────────────────

/// There is a warning exactly where two presets of a run had different settings.
pub proof fn law_any_difference_is_told(v: Seq<(Seq<char>, Seq<char>)>)
    ensures
        mismatch_warning(v) is Some <==> exists|i: int, j: int|
            0 <= i < v.len() && 0 <= j < v.len() && (#[trigger] v[i]).1 != (#[trigger] v[j]).1,
{
    if exists|i: int, j: int|
        0 <= i < v.len() && 0 <= j < v.len() && (#[trigger] v[i]).1 != (#[trigger] v[j]).1 {
        let (i, j) = choose|i: int, j: int|
            0 <= i < v.len() && 0 <= j < v.len() && (#[trigger] v[i]).1 != (#[trigger] v[j]).1;
        assert(v[i].1 != v[0].1 || v[j].1 != v[0].1);
        assert(differ(v));
    }
    if differ(v) {
        let i = choose|i: int| 0 <= i < v.len() && (#[trigger] v[i]).1 != v[0].1;
        assert(v[i].1 != v[0].1);
    }
}

/// What is noted under a name is there, in the place of what was noted under it, and
/// what is noted under other names stays.
pub proof fn law_note_is_kept(v: Seq<(Seq<char>, Seq<char>)>, k: Seq<char>, x: Seq<char>)
    ensures
        noted(v, k, x).contains((k, x)),
        forall|i: int| 0 <= i < v.len() && (#[trigger] v[i]).0 != k ==> noted(v, k, x).contains(v[i]),
    decreases v.len(),
{
    let now = noted(v, k, x);
    if v.len() == 0 || v[0].0 == k || text_less(k, v[0].0) {
        assert(now[0] == (k, x));
        assert forall|i: int| 0 <= i < v.len() && (#[trigger] v[i]).0 != k implies now.contains(v[i]) by {
            if v[0].0 == k {
                assert(v.skip(1)[i - 1] == v[i]);
                assert(now[i] == v[i]);
            } else {
                assert(now[i + 1] == v[i]);
            }
        }
    } else {
        let rest = v.skip(1);
        law_note_is_kept(rest, k, x);
        let tail = noted(rest, k, x);
        assert(now == seq![v[0]] + tail);
        let a = choose|a: int| 0 <= a < tail.len() && tail[a] == (k, x);
        assert(now[a + 1] == (k, x));
        assert forall|i: int| 0 <= i < v.len() && (#[trigger] v[i]).0 != k implies now.contains(v[i]) by {
            if i == 0 {
                assert(now[0] == v[0]);
            } else {
                assert(rest[i - 1] == v[i]);
                let b = choose|b: int| 0 <= b < tail.len() && tail[b] == rest[i - 1];
                assert(now[b + 1] == v[i]);
            }
        }
    }
}

} // verus!
