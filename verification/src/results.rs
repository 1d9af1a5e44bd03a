//! The results of a benchmark: the points measured, and the table they make.
//!
//! A [`Point`] is one measured test of one preset. Its rates arrive as the text
//! that the table shows, together with the place of the mean in the order of
//! rates; the ratio of two rates arrives as text too.
use vstd::prelude::*;
use vstd::string::*;
use crate::bench::pairs;
use crate::text::{
    join, join_strs, lemma_text_less_total, lemma_text_less_transitive, list_has, opt, str_eq,
    str_less, strs, text_less,
};

verus! {

/// One measured test of one preset.
#[derive(Debug, Clone, PartialEq, Eq)]
pub struct Point {
    pub preset: String,
    pub test: String,
    /// The mean rate, with one decimal.
    pub mean: String,
    /// The sample deviation, with one decimal.
    pub sd: String,
    /// How many samples the mean is of.
    pub n: i32,
    pub note: String,
    /// The place of the mean in the order of rates; positive where the mean is.
    pub rank: i64,
}

/// A point as text and numbers.
#[verifier::ext_equal]
pub struct PointView {
    pub preset: Seq<char>,
    pub test: Seq<char>,
    pub mean: Seq<char>,
    pub sd: Seq<char>,
    pub n: i32,
    pub note: Seq<char>,
    pub rank: i64,
}

impl View for Point {
    type V = PointView;

    open spec fn view(&self) -> PointView {
        PointView {
            preset: self.preset@,
            test: self.test@,
            mean: self.mean@,
            sd: self.sd@,
            n: self.n,
            note: self.note@,
            rank: self.rank,
        }
    }
}

pub open spec fn points_view(v: Seq<Point>) -> Seq<PointView> {
    v.map_values(|p: Point| p@)
}

// ── Revising a point ─────────────────────────────────────────────────────

/// The point of a preset and a test, or -1.
pub open spec fn point_at(ps: Seq<PointView>, preset: Seq<char>, test: Seq<char>) -> int
    decreases ps.len(),
{
    if ps.len() == 0 {
        -1
    } else if point_at(ps.drop_last(), preset, test) >= 0 {
        point_at(ps.drop_last(), preset, test)
    } else if ps.last().preset == preset && ps.last().test == test {
        ps.len() - 1
    } else {
        -1
    }
}

/// The points after one more was recorded: it takes the place of the one of the
/// same preset and test, or comes last.
pub open spec fn recorded(ps: Seq<PointView>, p: PointView) -> Seq<PointView> {
    let at = point_at(ps, p.preset, p.test);
    if at >= 0 {
        ps.update(at, p)
    } else {
        ps.push(p)
    }
}

pub proof fn lemma_point_at(ps: Seq<PointView>, preset: Seq<char>, test: Seq<char>)
    ensures
        -1 <= point_at(ps, preset, test) < ps.len(),
        point_at(ps, preset, test) >= 0 ==> ps[point_at(ps, preset, test)].preset == preset
            && ps[point_at(ps, preset, test)].test == test,
        forall|k: int|
            0 <= k < ps.len() && (point_at(ps, preset, test) < 0 || k < point_at(ps, preset, test))
                ==> !((#[trigger] ps[k]).preset == preset && ps[k].test == test),
    decreases ps.len(),
{
    if ps.len() > 0 {
        let init = ps.drop_last();
        lemma_point_at(init, preset, test);
        assert forall|k: int|
            0 <= k < ps.len() && (point_at(ps, preset, test) < 0 || k < point_at(
                ps,
                preset,
                test,
            )) implies !((#[trigger] ps[k]).preset == preset && ps[k].test == test) by {
            if k < init.len() {
                assert(ps[k] == init[k]);
            }
        }
    }
}

/// Records a point.
pub fn put(points: &mut Vec<Point>, p: Point)
    ensures
        points_view(final(points)@) == recorded(points_view(old(points)@), p@),
{
    let ghost before = points@;
    let ghost view = points_view(before);
    let mut i: usize = 0;
    while i < points.len()
        invariant
            i <= points.len(),
            points@ == before,
            before == old(points)@,
            view == points_view(before),
            point_at(view.take(i as int), p.preset@, p.test@) < 0,
        decreases points.len() - i,
    {
        proof {
            let t = view.take(i + 1);
            assert(t.drop_last() =~= view.take(i as int));
            assert(t.last() == before[i as int]@);
        }
        if str_eq(points[i].preset.as_str(), p.preset.as_str()) && str_eq(
            points[i].test.as_str(),
            p.test.as_str(),
        ) {
            proof {
                lemma_point_at_prefix(view, p.preset@, p.test@, i + 1);
                assert(points_view(before.update(i as int, p)) =~= view.update(i as int, p@));
            }
            points.set(i, p);
            return;
        }
        i += 1;
    }
    assert(view.take(before.len() as int) =~= view);
    points.push(p);
    assert(points_view(points@) =~= view.push(p@));
}

proof fn lemma_point_at_prefix(ps: Seq<PointView>, preset: Seq<char>, test: Seq<char>, n: int)
    requires
        0 <= n <= ps.len(),
        point_at(ps.take(n), preset, test) >= 0,
    ensures
        point_at(ps, preset, test) == point_at(ps.take(n), preset, test),
    decreases ps.len() - n,
{
    if n == ps.len() {
        assert(ps.take(n) =~= ps);
    } else {
        assert(ps.take(n + 1).drop_last() =~= ps.take(n));
        lemma_point_at_prefix(ps, preset, test, n + 1);
    }
}

/// No preset and test twice.
pub open spec fn one_each(ps: Seq<PointView>) -> bool {
    forall|i: int, j: int|
        0 <= i < j < ps.len() ==> !((#[trigger] ps[i]).preset == (#[trigger] ps[j]).preset
            && ps[i].test == ps[j].test)
}

/// Recording keeps one point for each preset and test, the last one recorded.
pub proof fn law_last_recorded_wins(ps: Seq<PointView>, p: PointView)
    requires
        one_each(ps),
    ensures
        one_each(recorded(ps, p)),
        ({
            let now = recorded(ps, p);
            let at = point_at(now, p.preset, p.test);
            at >= 0 && now[at] == p
        }),
{
    lemma_point_at(ps, p.preset, p.test);
    let now = recorded(ps, p);
    let at = point_at(ps, p.preset, p.test);
    assert forall|i: int, j: int| 0 <= i < j < now.len() implies !((#[trigger] now[i]).preset == (
    #[trigger] now[j]).preset && now[i].test == now[j].test) by {
        if at >= 0 {
            if i != at && j != at {
                assert(now[i] == ps[i] && now[j] == ps[j]);
            } else if i == at {
                assert(now[j] == ps[j] && ps[at].preset == p.preset);
            } else {
                assert(now[i] == ps[i] && ps[at].preset == p.preset);
            }
        } else if j == ps.len() {
            assert(now[i] == ps[i]);
        } else {
            assert(now[i] == ps[i] && now[j] == ps[j]);
        }
    }
    lemma_point_at(now, p.preset, p.test);
    if at >= 0 {
        assert(now[at] == p);
    } else {
        assert(now[ps.len() as int] == p);
    }
}

// ── The result table ─────────────────────────────────────────────────────

/// One row of the result table.
#[derive(Debug, Clone, PartialEq, Eq)]
pub struct Row {
    pub test: String,
    pub preset: String,
    pub mean: String,
    pub sd: String,
    pub samples: i32,
    pub ratio: String,
    pub note: String,
}

/// A row as text.
#[verifier::ext_equal]
pub struct RowView {
    pub test: Seq<char>,
    pub preset: Seq<char>,
    pub mean: Seq<char>,
    pub sd: Seq<char>,
    pub samples: i32,
    pub ratio: Seq<char>,
    pub note: Seq<char>,
}

impl View for Row {
    type V = RowView;

    open spec fn view(&self) -> RowView {
        RowView {
            test: self.test@,
            preset: self.preset@,
            mean: self.mean@,
            sd: self.sd@,
            samples: self.samples,
            ratio: self.ratio@,
            note: self.note@,
        }
    }
}

pub open spec fn result_rows(v: Seq<Row>) -> Seq<RowView> {
    v.map_values(|r: Row| r@)
}

/// The tests of the points, each once, in the order in which they first appear.
pub open spec fn tests_of(ps: Seq<PointView>) -> Seq<Seq<char>>
    decreases ps.len(),
{
    if ps.len() == 0 {
        Seq::empty()
    } else {
        let before = tests_of(ps.drop_last());
        if before.contains(ps.last().test) {
            before
        } else {
            before.push(ps.last().test)
        }
    }
}

/// The preset that every ratio is measured against: the first.
pub open spec fn baseline_of(order: Seq<Seq<char>>) -> Seq<char> {
    if order.len() > 0 {
        order[0]
    } else {
        Seq::empty()
    }
}

/// The last point of the baseline for a test, or -1.
pub open spec fn base_at(ps: Seq<PointView>, baseline: Seq<char>, test: Seq<char>) -> int
    decreases ps.len(),
{
    if ps.len() == 0 {
        -1
    } else if ps.last().preset == baseline && ps.last().test == test {
        ps.len() - 1
    } else {
        base_at(ps.drop_last(), baseline, test)
    }
}

/// The place of a preset in the order; one that is not listed comes behind all.
pub open spec fn place_in(order: Seq<Seq<char>>, preset: Seq<char>) -> int
    decreases order.len(),
{
    if order.len() == 0 || order[0] == preset {
        0
    } else {
        1 + place_in(order.skip(1), preset)
    }
}

/// The row of the `i`-th point. It has a ratio where the baseline measured the
/// test at a positive rate.
pub open spec fn row_of(
    ps: Seq<PointView>,
    order: Seq<Seq<char>>,
    ratios: Seq<Seq<char>>,
    i: int,
) -> RowView {
    let base = base_at(ps, baseline_of(order), ps[i].test);
    RowView {
        test: ps[i].test,
        preset: ps[i].preset,
        mean: ps[i].mean,
        sd: ps[i].sd,
        samples: ps[i].n,
        ratio: if base >= 0 && ps[base].rank > 0 {
            ratios[i]
        } else {
            "-"@
        },
        note: ps[i].note,
    }
}

/// The rows of one test for the presets at one place of the order, among the
/// first `n` points.
pub open spec fn rows_at_place(
    ps: Seq<PointView>,
    order: Seq<Seq<char>>,
    ratios: Seq<Seq<char>>,
    test: Seq<char>,
    place: int,
    n: int,
) -> Seq<RowView>
    decreases n,
{
    if n <= 0 {
        Seq::empty()
    } else {
        let before = rows_at_place(ps, order, ratios, test, place, n - 1);
        if ps[n - 1].test == test && place_in(order, ps[n - 1].preset) == place {
            before.push(row_of(ps, order, ratios, n - 1))
        } else {
            before
        }
    }
}

/// The rows of one test: by the place of the preset, then in the order measured.
pub open spec fn rows_of_test(
    ps: Seq<PointView>,
    order: Seq<Seq<char>>,
    ratios: Seq<Seq<char>>,
    test: Seq<char>,
    places: int,
) -> Seq<RowView>
    decreases places,
{
    if places <= 0 {
        Seq::empty()
    } else {
        rows_of_test(ps, order, ratios, test, places - 1) + rows_at_place(
            ps,
            order,
            ratios,
            test,
            places - 1,
            ps.len() as int,
        )
    }
}

/// The rows of the first `n` tests.
pub open spec fn rows_of_tests(
    ps: Seq<PointView>,
    order: Seq<Seq<char>>,
    ratios: Seq<Seq<char>>,
    n: int,
) -> Seq<RowView>
    decreases n,
{
    if n <= 0 {
        Seq::empty()
    } else {
        rows_of_tests(ps, order, ratios, n - 1) + rows_of_test(
            ps,
            order,
            ratios,
            tests_of(ps)[n - 1],
            order.len() as int + 1,
        )
    }
}

/// The result table: the rows of each test together.
pub open spec fn result_table(
    ps: Seq<PointView>,
    order: Seq<Seq<char>>,
    ratios: Seq<Seq<char>>,
) -> Seq<RowView> {
    rows_of_tests(ps, order, ratios, tests_of(ps).len() as int)
}

fn tests_seen(points: &[Point]) -> (r: Vec<String>)
    ensures
        strs(r@) == tests_of(points_view(points@)),
{
    let mut out: Vec<String> = Vec::new();
    let ghost ps = points_view(points@);
    let mut i: usize = 0;
    assert(strs(out@) =~= tests_of(ps.take(0)));
    while i < points.len()
        invariant
            i <= points.len(),
            ps == points_view(points@),
            strs(out@) == tests_of(ps.take(i as int)),
        decreases points.len() - i,
    {
        let ghost before = out@;
        proof {
            assert(ps.take(i + 1).drop_last() =~= ps.take(i as int));
            assert(ps.take(i + 1).last() == points@[i as int]@);
        }
        if !list_has(&out, points[i].test.as_str()) {
            out.push(points[i].test.clone());
            assert(strs(out@) =~= strs(before).push(points@[i as int].test@));
        }
        i += 1;
    }
    assert(ps.take(points@.len() as int) =~= ps);
    out
}

/// The point that a test is measured against, or none: the index that the ratio of
/// every point of the test refers to.
pub fn base_index(points: &[Point], order: &[String], test: &str) -> (r: Option<usize>)
    ensures
        match r {
            Some(i) => base_at(points_view(points@), baseline_of(strs(order@)), test@) == i && i
                < points@.len(),
            None => base_at(points_view(points@), baseline_of(strs(order@)), test@) < 0,
        },
{
    let baseline: String = if order.len() > 0 {
        order[0].clone()
    } else {
        String::new()
    };
    proof {
        if order@.len() > 0 {
            assert(strs(order@)[0] == order@[0]@);
        } else {
            assert(baseline@ =~= baseline_of(strs(order@)));
        }
    }
    let ghost ps = points_view(points@);
    let mut i: usize = points.len();
    assert(ps.take(points@.len() as int) =~= ps);
    while i > 0
        invariant
            i <= points.len(),
            ps == points_view(points@),
            baseline@ == baseline_of(strs(order@)),
            base_at(ps, baseline@, test@) == base_at(ps.take(i as int), baseline@, test@),
        decreases i,
    {
        proof {
            assert(ps.take(i as int).drop_last() =~= ps.take(i - 1));
            assert(ps.take(i as int).last() == points@[i - 1]@);
        }
        if str_eq(points[i - 1].preset.as_str(), baseline.as_str()) && str_eq(
            points[i - 1].test.as_str(),
            test,
        ) {
            return Some(i - 1);
        }
        i -= 1;
    }
    None
}

fn place(order: &[String], preset: &str) -> (r: usize)
    ensures
        r == place_in(strs(order@), preset@),
        r <= order@.len(),
{
    let mut i: usize = 0;
    let ghost o = strs(order@);
    assert(o.skip(0) =~= o);
    while i < order.len()
        invariant
            i <= order.len(),
            o == strs(order@),
            place_in(o, preset@) == i + place_in(o.skip(i as int), preset@),
        decreases order.len() - i,
    {
        assert(o.skip(i as int)[0] == order@[i as int]@);
        assert(o.skip(i as int).skip(1) =~= o.skip(i + 1));
        if str_eq(order[i].as_str(), preset) {
            return i;
        }
        i += 1;
    }
    i
}

fn make_row(points: &[Point], order: &[String], ratios: &[String], i: usize) -> (r: Row)
    requires
        i < points@.len(),
        ratios@.len() == points@.len(),
    ensures
        r@ == row_of(points_view(points@), strs(order@), strs(ratios@), i as int),
{
    let p = &points[i];
    let base = base_index(points, order, p.test.as_str());
    let ratio: String = match base {
        Some(b) => if points[b].rank > 0 {
            ratios[i].clone()
        } else {
            "-".to_owned()
        },
        None => "-".to_owned(),
    };
    let ghost ps = points_view(points@);
    proof {
        assert(ps[i as int] == points@[i as int]@);
        assert(strs(ratios@)[i as int] == ratios@[i as int]@);
        if let Some(b) = base {
            assert(ps[b as int] == points@[b as int]@);
        }
    }
    Row {
        test: p.test.clone(),
        preset: p.preset.clone(),
        mean: p.mean.clone(),
        sd: p.sd.clone(),
        samples: p.n,
        ratio,
        note: p.note.clone(),
    }
}

fn push_rows_of_test(
    out: &mut Vec<Row>,
    points: &[Point],
    order: &[String],
    ratios: &[String],
    test: &str,
)
    requires
        ratios@.len() == points@.len(),
    ensures
        result_rows(final(out)@) == result_rows(old(out)@) + rows_of_test(
            points_view(points@),
            strs(order@),
            strs(ratios@),
            test@,
            order@.len() as int + 1,
        ),
{
    let ghost ps = points_view(points@);
    let ghost o = strs(order@);
    let ghost q = strs(ratios@);
    let ghost start = result_rows(out@);
    let mut at: usize = 0;
    assert(start + rows_of_test(ps, o, q, test@, 0) =~= start);
    loop
        invariant
            at <= order.len(),
            start == result_rows(old(out)@),
            ratios@.len() == points@.len(),
            ps == points_view(points@),
            o == strs(order@),
            q == strs(ratios@),
            result_rows(out@) == start + rows_of_test(ps, o, q, test@, at as int),
        decreases order.len() - at,
    {
        let ghost mid = result_rows(out@);
        let mut i: usize = 0;
        assert(mid + rows_at_place(ps, o, q, test@, at as int, 0) =~= mid);
        while i < points.len()
            invariant
                i <= points.len(),
                ratios@.len() == points@.len(),
                ps == points_view(points@),
                o == strs(order@),
                q == strs(ratios@),
                result_rows(out@) == mid + rows_at_place(ps, o, q, test@, at as int, i as int),
            decreases points.len() - i,
        {
            let ghost before = out@;
            assert(ps[i as int] == points@[i as int]@);
            if str_eq(points[i].test.as_str(), test) && place(order, points[i].preset.as_str()) == at {
                let row = make_row(points, order, ratios, i);
                out.push(row);
                proof {
                    assert(result_rows(out@) =~= result_rows(before).push(row@));
                    assert(result_rows(out@) =~= mid + rows_at_place(
                        ps,
                        o,
                        q,
                        test@,
                        at as int,
                        i + 1,
                    ));
                }
            }
            i += 1;
        }
        assert(result_rows(out@) =~= start + rows_of_test(ps, o, q, test@, at + 1));
        if at == order.len() {
            return;
        }
        at += 1;
    }
}

/// The result table: the points of each test together, in the order of the
/// presets. `ratios` holds the ratio of each point to the one that
/// [`base_index`] names for its test.
pub fn rows(points: &[Point], order: &[String], ratios: &[String]) -> (r: Vec<Row>)
    requires
        ratios@.len() == points@.len(),
    ensures
        result_rows(r@) == result_table(points_view(points@), strs(order@), strs(ratios@)),
{
    let tests = tests_seen(points);
    let ghost ps = points_view(points@);
    let ghost o = strs(order@);
    let ghost q = strs(ratios@);
    let mut out: Vec<Row> = Vec::new();
    let mut i: usize = 0;
    assert(strs(tests@).len() == tests@.len());
    assert(result_rows(out@) =~= rows_of_tests(ps, o, q, 0));
    while i < tests.len()
        invariant
            i <= tests.len(),
            ratios@.len() == points@.len(),
            ps == points_view(points@),
            o == strs(order@),
            q == strs(ratios@),
            strs(tests@) == tests_of(ps),
            result_rows(out@) == rows_of_tests(ps, o, q, i as int),
        decreases tests.len() - i,
    {
        assert(strs(tests@)[i as int] == tests@[i as int]@);
        push_rows_of_test(&mut out, points, order, ratios, tests[i].as_str());
        i += 1;
    }
    out
}

// ── What the presets resolved to ─────────────────────────────────────────

/// The flash-attention setting of each preset, in the order of the presets' names.
#[derive(Debug)]
pub struct Seen {
    entries: Vec<(String, String)>,
}

/// Names in strictly rising order.
pub open spec fn rising(v: Seq<(Seq<char>, Seq<char>)>) -> bool {
    forall|i: int, j: int| 0 <= i < j < v.len() ==> text_less((#[trigger] v[i]).0, (#[trigger] v[j]).0)
}

/// The pairs after one more: in the place of the one of the same name, or where
/// its name belongs.
pub open spec fn noted(v: Seq<(Seq<char>, Seq<char>)>, k: Seq<char>, x: Seq<char>) -> Seq<
    (Seq<char>, Seq<char>),
>
    decreases v.len(),
{
    if v.len() == 0 {
        seq![(k, x)]
    } else if v[0].0 == k {
        seq![(k, x)] + v.skip(1)
    } else if text_less(k, v[0].0) {
        seq![(k, x)] + v
    } else {
        seq![v[0]] + noted(v.skip(1), k, x)
    }
}

impl View for Seen {
    type V = Seq<(Seq<char>, Seq<char>)>;

    closed spec fn view(&self) -> Seq<(Seq<char>, Seq<char>)> {
        pairs(self.entries@)
    }
}

proof fn lemma_noted_split(v: Seq<(Seq<char>, Seq<char>)>, k: Seq<char>, x: Seq<char>, i: int)
    requires
        0 <= i <= v.len(),
        forall|j: int| 0 <= j < i ==> (#[trigger] v[j]).0 != k && !text_less(k, v[j].0),
    ensures
        noted(v, k, x) == v.take(i) + noted(v.skip(i), k, x),
    decreases i,
{
    if i == 0 {
        assert(v.skip(0) =~= v);
        assert(v.take(0) + noted(v, k, x) =~= noted(v, k, x));
    } else {
        assert(v[0].0 != k);
        assert forall|j: int| 0 <= j < i - 1 implies (#[trigger] v.skip(1)[j]).0 != k && !text_less(
            k,
            v.skip(1)[j].0,
        ) by {
            assert(v.skip(1)[j] == v[j + 1]);
        }
        lemma_noted_split(v.skip(1), k, x, i - 1);
        assert(v.skip(1).skip(i - 1) =~= v.skip(i));
        assert(seq![v[0]] + (v.skip(1).take(i - 1) + noted(v.skip(i), k, x)) =~= v.take(i) + noted(
            v.skip(i),
            k,
            x,
        ));
    }
}

impl Seen {
    /// Nothing seen yet.
    pub fn new() -> (r: Seen)
        ensures
            r@ == Seq::<(Seq<char>, Seq<char>)>::empty(),
    {
        let r = Seen { entries: Vec::new() };
        assert(r@ =~= Seq::<(Seq<char>, Seq<char>)>::empty());
        r
    }

    /// Notes the setting of a preset.
    pub fn insert(&mut self, preset: String, setting: String)
        ensures
            final(self)@ == noted(old(self)@, preset@, setting@),
    {
        let ghost v = pairs(self.entries@);
        let mut i: usize = 0;
        while i < self.entries.len() && !str_eq(self.entries[i].0.as_str(), preset.as_str())
            && !str_less(preset.as_str(), self.entries[i].0.as_str())
            invariant
                i <= self.entries@.len(),
                v == pairs(self.entries@),
                forall|j: int|
                    0 <= j < i ==> (#[trigger] v[j]).0 != preset@ && !text_less(preset@, v[j].0),
            decreases self.entries.len() - i,
        {
            assert(v[i as int].0 == self.entries@[i as int].0@);
            i += 1;
        }
        let ghost k = preset@;
        let ghost x = setting@;
        let ghost before = self.entries@;
        proof {
            lemma_noted_split(v, k, x, i as int);
        }
        if i < self.entries.len() {
            assert(v.skip(i as int)[0] == v[i as int]);
            assert(v[i as int].0 == before[i as int].0@);
            if str_eq(self.entries[i].0.as_str(), preset.as_str()) {
                self.entries.set(i, (preset, setting));
                assert(self@ =~= v.take(i as int) + (seq![(k, x)] + v.skip(i as int).skip(1)));
                return;
            }
            self.entries.insert(i, (preset, setting));
            assert(self@ =~= v.take(i as int) + (seq![(k, x)] + v.skip(i as int)));
        } else {
            assert(v.skip(i as int) =~= Seq::<(Seq<char>, Seq<char>)>::empty());
            self.entries.push((preset, setting));
            assert(self@ =~= v.take(i as int) + seq![(k, x)]);
        }
    }

    /// The pairs, in the order of the names.
    pub fn pairs(&self) -> (r: &Vec<(String, String)>)
        ensures
            pairs(r@) == self@,
    {
        &self.entries
    }
}

proof fn lemma_noted_names(v: Seq<(Seq<char>, Seq<char>)>, k: Seq<char>, x: Seq<char>)
    ensures
        forall|i: int|
            0 <= i < noted(v, k, x).len() ==> (#[trigger] noted(v, k, x)[i]).0 == k || exists|j: int|
                0 <= j < v.len() && #[trigger] v[j] == noted(v, k, x)[i],
    decreases v.len(),
{
    let n = noted(v, k, x);
    if v.len() > 0 && v[0].0 != k && !text_less(k, v[0].0) {
        let rest = noted(v.skip(1), k, x);
        lemma_noted_names(v.skip(1), k, x);
        assert forall|i: int| 0 <= i < n.len() implies (#[trigger] n[i]).0 == k || exists|j: int|
            0 <= j < v.len() && #[trigger] v[j] == n[i] by {
            if i == 0 {
                assert(v[0] == n[0]);
            } else {
                assert(n[i] == rest[i - 1]);
                if rest[i - 1].0 != k {
                    let j = choose|j: int| 0 <= j < v.skip(1).len() && #[trigger] v.skip(1)[j] == rest[i
                        - 1];
                    assert(v[j + 1] == n[i]);
                }
            }
        }
    } else {
        assert forall|i: int| 0 <= i < n.len() implies (#[trigger] n[i]).0 == k || exists|j: int|
            0 <= j < v.len() && #[trigger] v[j] == n[i] by {
            if i > 0 {
                if v[0].0 == k {
                    assert(v[i] == n[i]);
                } else {
                    assert(v[i - 1] == n[i]);
                }
            }
        }
    }
}

/// Noting a setting keeps the names in rising order, each once, and the noted one
/// has its new setting.
pub proof fn law_noted_stays_rising(v: Seq<(Seq<char>, Seq<char>)>, k: Seq<char>, x: Seq<char>)
    requires
        rising(v),
    ensures
        rising(noted(v, k, x)),
        noted(v, k, x).contains((k, x)),
    decreases v.len(),
{
    let n = noted(v, k, x);
    if v.len() == 0 {
        assert(n[0] == (k, x));
    } else {
        let rest = v.skip(1);
        assert forall|i: int| 0 <= i < rest.len() implies text_less(v[0].0, (#[trigger] rest[i]).0) by {
            assert(rest[i] == v[i + 1]);
        }
        assert(rising(rest)) by {
            assert forall|i: int, j: int| 0 <= i < j < rest.len() implies text_less(
                (#[trigger] rest[i]).0,
                (#[trigger] rest[j]).0,
            ) by {
                assert(rest[i] == v[i + 1] && rest[j] == v[j + 1]);
            }
        }
        if v[0].0 == k {
            assert(n[0] == (k, x));
            assert forall|i: int, j: int| 0 <= i < j < n.len() implies text_less(
                (#[trigger] n[i]).0,
                (#[trigger] n[j]).0,
            ) by {
                assert(n[j] == rest[j - 1]);
                if i > 0 {
                    assert(n[i] == rest[i - 1]);
                }
            }
        } else if text_less(k, v[0].0) {
            assert(n[0] == (k, x));
            assert forall|i: int, j: int| 0 <= i < j < n.len() implies text_less(
                (#[trigger] n[i]).0,
                (#[trigger] n[j]).0,
            ) by {
                assert(n[j] == v[j - 1]);
                if i > 0 {
                    assert(n[i] == v[i - 1]);
                } else if j > 1 {
                    assert(text_less(v[0].0, v[j - 1].0));
                    lemma_text_less_transitive(k, v[0].0, v[j - 1].0);
                }
            }
        } else {
            lemma_text_less_total(k, v[0].0);
            law_noted_stays_rising(rest, k, x);
            lemma_noted_names(rest, k, x);
            let tail = noted(rest, k, x);
            assert forall|i: int, j: int| 0 <= i < j < n.len() implies text_less(
                (#[trigger] n[i]).0,
                (#[trigger] n[j]).0,
            ) by {
                assert(n[j] == tail[j - 1]);
                if i > 0 {
                    assert(n[i] == tail[i - 1]);
                } else if tail[j - 1].0 != k {
                    let q = choose|q: int| 0 <= q < rest.len() && #[trigger] rest[q] == tail[j - 1];
                    assert(text_less(v[0].0, rest[q].0));
                }
            }
            let at = choose|at: int| 0 <= at < tail.len() && #[trigger] tail[at] == (k, x);
            assert(n[at + 1] == (k, x));
        }
    }
}

/// Whether two presets differ in their settings.
pub open spec fn differ(v: Seq<(Seq<char>, Seq<char>)>) -> bool {
    exists|i: int| 0 <= i < v.len() && (#[trigger] v[i]).1 != v[0].1
}

/// Each preset with its setting, `preset=setting`.
pub open spec fn equations(v: Seq<(Seq<char>, Seq<char>)>) -> Seq<Seq<char>> {
    v.map_values(|p: (Seq<char>, Seq<char>)| p.0 + "="@ + p.1)
}

/// The warning about presets that ran with different flash-attention settings.
pub open spec fn mismatch_warning(v: Seq<(Seq<char>, Seq<char>)>) -> Option<Seq<char>> {
    if differ(v) {
        Some(
            "The compared presets ran with DIFFERENT flash-attention settings ("@ + join(
                equations(v),
                ", "@,
            )
                + "), so the rates below differ by more than the thing you are comparing. Pin `flash-attn` explicitly on every preset in the comparison and re-run."@,
        )
    } else {
        None
    }
}

/// The warning about presets that ran with different flash-attention settings;
/// none where they agree.
pub fn flash_attn_mismatch(seen: &Seen) -> (r: Option<String>)
    ensures
        opt(r) == mismatch_warning(seen@),
{
    let v = seen.pairs();
    let ghost view = seen@;
    let mut found: bool = false;
    let mut i: usize = 0;
    while i < v.len()
        invariant
            i <= v.len(),
            view == pairs(v@),
            found == exists|k: int| 0 <= k < i && (#[trigger] view[k]).1 != view[0].1,
        decreases v.len() - i,
    {
        proof {
            assert(view[i as int].1 == v@[i as int].1@);
            assert(view[0].1 == v@[0].1@);
        }
        if !str_eq(v[i].1.as_str(), v[0].1.as_str()) {
            found = true;
            assert(view[i as int].1 != view[0].1);
        }
        i += 1;
    }
    if !found {
        return None;
    }
    let mut parts: Vec<String> = Vec::new();
    let mut k: usize = 0;
    while k < v.len()
        invariant
            k <= v.len(),
            parts@.len() == k,
            forall|j: int| 0 <= j < k ==> (#[trigger] parts@[j])@ == v@[j].0@ + "="@ + v@[j].1@,
        decreases v.len() - k,
    {
        let mut s: String = v[k].0.clone();
        s.append("=");
        s.append(v[k].1.as_str());
        parts.push(s);
        k += 1;
    }
    assert(strs(parts@) =~= equations(view));
    let list = join_strs(&parts, ", ");
    let mut out: String = "The compared presets ran with DIFFERENT flash-attention settings (".to_owned();
    out.append(list.as_str());
    out.append(
        "), so the rates below differ by more than the thing you are comparing. Pin `flash-attn` explicitly on every preset in the comparison and re-run.",
    );
    Some(out)
}

} // verus!
