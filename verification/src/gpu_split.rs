//! The GPU distribution table: which devices a model runs on, and in what
//! proportion.
//!
//! A selection is a pair of strings, the values of `--device` and
//! `--tensor-split`. Every edit reads the pair into picks (a device id and its
//! weight, in split order), changes the picks and renders them again, so that the
//! two strings can never disagree. Rendering knows four states:
//!
//! | selected | `device`        | `tensor_split` | meaning                             |
//! |----------|-----------------|----------------|-------------------------------------|
//! | 0        | `""`            | `""`           | all detected devices                |
//! | 1        | `"ROCm1"`       | `""`           | one GPU, nothing to split           |
//! | 2+ auto  | `"ROCm1,CUDA0"` | `""`           | split by free memory at load        |
//! | 2+ fixed | `"ROCm1,CUDA0"` | `"3,1"`        | explicit proportions                |
//!
//! Weights are ratios. Where the model is known they are shown and edited as
//! blocks: a [`Layout`] gives the positions that the split runs over, and
//! [`block_counts`] says how many of them each device gets. Position `pos` goes to
//! the first device whose cumulative share exceeds it.
use vstd::prelude::*;
use vstd::string::*;
use crate::devices::{devs, names_cpu, vram_text, Device, DeviceOption};
use crate::rounding::{round_half_even, rounded};
use crate::text::{
    dec, dec_int, entries, entries_of, find_ignore_case, index_ignore_case, int_str, is_entry, join,
    join_strs, lemma_dec_is_entry, lemma_entries, lemma_entries_join, lemma_parse_dec_int,
    lower_all, parse_signed, pieces, push_dec, push_int, read_int, str_eq_ignore_case, strs,
    to_chars, to_strings,
};

verus! {

/// The two strings the table drives, always produced as a pair.
#[derive(Debug, Default, PartialEq, Eq)]
pub struct GpuSelection {
    /// `--device` value: comma-separated ids in split order, or empty.
    pub device: String,
    /// `--tensor-split` value: comma-separated weights parallel to `device`, or
    /// empty.
    pub tensor_split: String,
}

/// A selection as text.
#[verifier::ext_equal]
pub struct Selection {
    pub device: Seq<char>,
    pub tensor_split: Seq<char>,
}

impl View for GpuSelection {
    type V = Selection;

    open spec fn view(&self) -> Selection {
        Selection { device: self.device@, tensor_split: self.tensor_split@ }
    }
}

impl Clone for GpuSelection {
    fn clone(&self) -> (r: Self)
        ensures
            r@ == self@,
    {
        GpuSelection { device: self.device.clone(), tensor_split: self.tensor_split.clone() }
    }
}

/// A selected device and its weight. Weight 0 means "unweighted".
pub type Pick = (String, i32);

/// The picks as text and numbers.
pub open spec fn pick_views(v: Seq<(String, i32)>) -> Seq<(Seq<char>, int)> {
    v.map_values(|p: (String, i32)| (p.0@, p.1 as int))
}

/// A list of machine integers as mathematical ones.
pub open spec fn ints(v: Seq<i32>) -> Seq<int> {
    v.map_values(|x: i32| x as int)
}

// ── Strings and picks ────────────────────────────────────────────────────

/// The weight that an entry of `tensor_split` stands for: what is not a number,
/// or is negative, counts as 0.
pub open spec fn weight_of(p: Seq<char>) -> int {
    match parse_signed(p, i32::MIN as int, i32::MAX as int) {
        Some(v) => if v > 0 {
            v
        } else {
            0
        },
        None => 0,
    }
}

pub open spec fn weight_list(s: Seq<char>) -> Seq<int> {
    entries(s, ',').map_values(|p: Seq<char>| weight_of(p))
}

/// The devices of a selection with their weights, in split order. A device
/// without a weight of its own is unweighted.
pub open spec fn picks_of(sel: Selection) -> Seq<(Seq<char>, int)> {
    let ids = entries(sel.device, ',');
    let weights = weight_list(sel.tensor_split);
    Seq::new(
        ids.len(),
        |i: int|
            (
                ids[i],
                if i < weights.len() {
                    weights[i]
                } else {
                    0
                },
            ),
    )
}

pub open spec fn ids_of(ps: Seq<(Seq<char>, int)>) -> Seq<Seq<char>> {
    ps.map_values(|p: (Seq<char>, int)| p.0)
}

pub open spec fn weights_in(ps: Seq<(Seq<char>, int)>) -> Seq<int> {
    ps.map_values(|p: (Seq<char>, int)| p.1)
}

pub open spec fn numerals_of(ps: Seq<(Seq<char>, int)>) -> Seq<Seq<char>> {
    ps.map_values(|p: (Seq<char>, int)| dec_int(p.1))
}

/// Whether any pick has a weight.
pub open spec fn weighted(ps: Seq<(Seq<char>, int)>) -> bool {
    exists|i: int| 0 <= i < ps.len() && (#[trigger] ps[i]).1 > 0
}

/// The two strings of a list of picks. The weights are left out where there is
/// nothing to split and where no pick has one.
pub open spec fn rendered(ps: Seq<(Seq<char>, int)>) -> Selection {
    Selection {
        device: join(ids_of(ps), ","@),
        tensor_split: if ps.len() < 2 || !weighted(ps) {
            Seq::empty()
        } else {
            join(numerals_of(ps), ","@)
        },
    }
}

/// The ids of a comma-separated list; blank entries are dropped.
pub fn parse_device_list(s: &str) -> (r: Vec<String>)
    ensures
        strs(r@) == entries(s@, ','),
{
    let c = to_chars(s);
    let parts = entries_of(c.as_slice(), ',');
    to_strings(&parts)
}

/// The weights of a comma-separated list. An entry that is not a non-negative
/// number reads as 0.
pub fn parse_weights(s: &str) -> (r: Vec<i32>)
    ensures
        ints(r@) == weight_list(s@),
        forall|i: int| 0 <= i < r@.len() ==> r@[i] >= 0,
{
    let c = to_chars(s);
    let parts = entries_of(c.as_slice(), ',');
    let mut out: Vec<i32> = Vec::new();
    let mut i: usize = 0;
    while i < parts.len()
        invariant
            i <= parts.len(),
            pieces(parts@) == entries(s@, ','),
            out@.len() == i,
            forall|k: int| 0 <= k < i ==> #[trigger] out@[k] == weight_of(parts@[k]@) && out@[k] >= 0,
        decreases parts.len() - i,
    {
        let mut w: i32 = 0;
        if let Some(v) = read_int(parts[i], i32::MIN as i64, i32::MAX as i64) {
            if v > 0 {
                w = v as i32;
            }
        }
        out.push(w);
        i += 1;
    }
    proof {
        assert forall|k: int| 0 <= k < out@.len() implies ints(out@)[k] == weight_list(s@)[k] by {
            assert(pieces(parts@)[k] == parts@[k]@);
        }
        assert(ints(out@) =~= weight_list(s@));
    }
    out
}

/// The devices of a selection with their weights, in split order.
pub fn picks(sel: &GpuSelection) -> (r: Vec<Pick>)
    ensures
        pick_views(r@) == picks_of(sel@),
        forall|i: int| 0 <= i < r@.len() ==> (#[trigger] r@[i]).1 >= 0,
{
    let weights = parse_weights(sel.tensor_split.as_str());
    let ids = parse_device_list(sel.device.as_str());
    let mut out: Vec<Pick> = Vec::new();
    let mut i: usize = 0;
    while i < ids.len()
        invariant
            i <= ids.len(),
            out@.len() == i,
            strs(ids@) == entries(sel.device@, ','),
            ints(weights@) == weight_list(sel.tensor_split@),
            forall|k: int| 0 <= k < weights@.len() ==> weights@[k] >= 0,
            forall|k: int|
                0 <= k < i ==> (#[trigger] out@[k]).0@ == ids@[k]@ && out@[k].1 >= 0 && out@[k].1 as int
                    == picks_of(sel@)[k].1,
        decreases ids.len() - i,
    {
        let w: i32 = if i < weights.len() {
            weights[i]
        } else {
            0
        };
        proof {
            assert(strs(ids@).len() == ids@.len());
            assert(ints(weights@).len() == weights@.len());
            if i < weights.len() {
                assert(ints(weights@)[i as int] == weights@[i as int]);
            }
        }
        out.push((ids[i].clone(), w));
        i += 1;
    }
    proof {
        assert(strs(ids@).len() == ids@.len());
        assert forall|k: int| 0 <= k < out@.len() implies pick_views(out@)[k] == picks_of(sel@)[k] by {
            assert(out@[k].0@ == ids@[k]@);
            assert(strs(ids@)[k] == ids@[k]@);
        }
        assert(pick_views(out@) =~= picks_of(sel@));
    }
    out
}

/// Whether some pick has a weight.
fn any_weight(v: &Vec<Pick>) -> (r: bool)
    ensures
        r == weighted(pick_views(v@)),
{
    let mut i: usize = 0;
    while i < v.len()
        invariant
            i <= v.len(),
            forall|k: int| 0 <= k < i ==> (#[trigger] pick_views(v@)[k]).1 <= 0,
        decreases v.len() - i,
    {
        assert(pick_views(v@)[i as int].1 == v@[i as int].1);
        if v[i].1 > 0 {
            return true;
        }
        i += 1;
    }
    false
}

fn pick_ids(v: &Vec<Pick>) -> (r: Vec<String>)
    ensures
        strs(r@) == ids_of(pick_views(v@)),
{
    let mut out: Vec<String> = Vec::new();
    let mut i: usize = 0;
    while i < v.len()
        invariant
            i <= v.len(),
            out@.len() == i,
            forall|k: int| 0 <= k < i ==> (#[trigger] out@[k])@ == v@[k].0@,
        decreases v.len() - i,
    {
        out.push(v[i].0.clone());
        i += 1;
    }
    assert(strs(out@) =~= ids_of(pick_views(v@)));
    out
}

/// The weights of the picks.
fn weights_of(v: &Vec<Pick>) -> (r: Vec<i32>)
    ensures
        ints(r@) == weights_in(pick_views(v@)),
{
    let mut out: Vec<i32> = Vec::new();
    let mut i: usize = 0;
    while i < v.len()
        invariant
            i <= v.len(),
            out@.len() == i,
            forall|k: int| 0 <= k < i ==> #[trigger] out@[k] == v@[k].1,
        decreases v.len() - i,
    {
        out.push(v[i].1);
        i += 1;
    }
    assert(ints(out@) =~= weights_in(pick_views(v@)));
    out
}

/// Renders picks, in the order given.
pub fn render(v: &Vec<Pick>) -> (r: GpuSelection)
    ensures
        r@ == rendered(pick_views(v@)),
{
    let ids = pick_ids(v);
    let device = join_strs(&ids, ",");
    if v.len() < 2 || !any_weight(v) {
        return GpuSelection { device, tensor_split: String::new() };
    }
    let mut numerals: Vec<String> = Vec::new();
    let mut i: usize = 0;
    while i < v.len()
        invariant
            i <= v.len(),
            numerals@.len() == i,
            forall|k: int| 0 <= k < i ==> (#[trigger] numerals@[k])@ == dec_int(v@[k].1 as int),
        decreases v.len() - i,
    {
        numerals.push(int_str(v[i].1 as i64));
        i += 1;
    }
    assert(strs(numerals@) =~= numerals_of(pick_views(v@)));
    GpuSelection { device, tensor_split: join_strs(&numerals, ",") }
}

/// The first pick with the id, in any case of its letters.
fn find_pick(v: &Vec<Pick>, id: &str) -> (r: Option<usize>)
    ensures
        match r {
            Some(i) => find_ignore_case(ids_of(pick_views(v@)), id@) == i && i < v@.len(),
            None => find_ignore_case(ids_of(pick_views(v@)), id@) == -1,
        },
{
    let ids = pick_ids(v);
    let c = to_chars(id);
    assert(strs(ids@).len() == ids@.len());
    index_ignore_case(&ids, c.as_slice())
}

/// Reading a rendered list of picks gives it back: the ids always; the weights
/// where there are two picks or more and one of them is weighted. Where there are
/// not, every weight reads as 0.
pub proof fn law_render_reads_back(ps: Seq<(Seq<char>, int)>)
    requires
        forall|i: int| 0 <= i < ps.len() ==> is_entry((#[trigger] ps[i]).0, ','),
        forall|i: int| 0 <= i < ps.len() ==> 0 <= (#[trigger] ps[i]).1 <= i32::MAX,
    ensures
        ids_of(picks_of(rendered(ps))) == ids_of(ps),
        ps.len() >= 2 && weighted(ps) ==> picks_of(rendered(ps)) == ps,
        !weighted(ps) ==> picks_of(rendered(ps)) == ps,
        ps.len() < 2 ==> weights_in(picks_of(rendered(ps))) == Seq::new(ps.len(), |i: int| 0int),
{
    reveal_strlit(",");
    assert(","@ =~= seq![',']);
    let ids = ids_of(ps);
    assert forall|i: int| 0 <= i < ids.len() implies is_entry(#[trigger] ids[i], ',') by {
        assert(ids[i] == ps[i].0);
    }
    lemma_entries_join(ids, ',');
    let got = picks_of(rendered(ps));
    assert(ids_of(got) =~= ids);
    let ts = rendered(ps).tensor_split;
    if ps.len() >= 2 && weighted(ps) {
        let nums = numerals_of(ps);
        assert forall|i: int| 0 <= i < nums.len() implies is_entry(#[trigger] nums[i], ',') by {
            assert(nums[i] == dec_int(ps[i].1));
            lemma_dec_is_entry(ps[i].1, ',');
        }
        lemma_entries_join(nums, ',');
        assert forall|i: int| 0 <= i < ps.len() implies got[i] == ps[i] by {
            assert(entries(ts, ',')[i] == dec_int(ps[i].1));
            lemma_parse_dec_int(ps[i].1, i32::MIN as int, i32::MAX as int);
            assert(weight_list(ts)[i] == ps[i].1);
        }
        assert(got =~= ps);
    } else {
        lemma_entries_join(Seq::<Seq<char>>::empty(), ',');
        assert(join(Seq::<Seq<char>>::empty(), seq![',']) =~= Seq::<char>::empty());
        assert(weight_list(ts).len() == 0);
        if !weighted(ps) {
            assert forall|i: int| 0 <= i < ps.len() implies got[i] == ps[i] by {
                assert(ps[i].1 == 0);
            }
            assert(got =~= ps);
        }
        assert(weights_in(got) =~= Seq::new(ps.len(), |i: int| 0int));
    }
}

/// What is read out of a selection can be rendered: every id is an entry of a
/// list, every weight a non-negative number.
pub proof fn lemma_picks_are_clean(sel: Selection)
    ensures
        forall|i: int| 0 <= i < picks_of(sel).len() ==> is_entry((#[trigger] picks_of(sel)[i]).0, ','),
        forall|i: int|
            0 <= i < picks_of(sel).len() ==> 0 <= (#[trigger] picks_of(sel)[i]).1 <= i32::MAX,
{
    lemma_entries(sel.device, ',');
}

// ── Blocks ───────────────────────────────────────────────────────────────

/// The positions that a model's split runs over: every block of the model and
/// one more for the output layer, less those that stay on the CPU.
#[derive(Debug, Clone, Copy, PartialEq, Eq)]
pub struct Layout {
    /// First position handed to a GPU.
    pub start: i32,
    /// How many positions the split runs over.
    pub count: i32,
}

impl Layout {
    /// A layout over at least one position.
    pub open spec fn valid(self) -> bool {
        &&& 0 <= self.start
        &&& 0 < self.count
        &&& self.start + self.count <= i32::MAX
    }

    /// The layout of a model with `n_layer_all` blocks, `n_gpu_layers` of whose
    /// positions are offloaded (a negative number means all). `None` where there
    /// is nothing to split.
    pub fn new(n_layer_all: i32, n_gpu_layers: i32) -> (r: Option<Self>)
        requires
            n_layer_all < i32::MAX,
        ensures
            r is None <==> n_layer_all <= 0 || n_gpu_layers == 0,
            r matches Some(l) ==> {
                &&& l.valid()
                &&& l.start + l.count == n_layer_all + 1
                &&& l.count == if 0 <= n_gpu_layers <= n_layer_all {
                    n_gpu_layers as int
                } else {
                    n_layer_all + 1
                }
            },
    {
        if n_layer_all <= 0 {
            return None;
        }
        let positions: i32 = n_layer_all + 1;
        let ngl: i32 = if n_gpu_layers < 0 || n_gpu_layers > positions {
            positions
        } else {
            n_gpu_layers
        };
        if ngl <= 0 {
            return None;
        }
        Some(Layout { start: positions - ngl, count: ngl })
    }

    /// The last position, which is the output layer.
    pub open spec fn last_position(self) -> int {
        self.start + self.count - 1
    }

    fn output_position(self) -> (r: i32)
        requires
            i32::MIN <= self.start + self.count - 1 <= i32::MAX,
        ensures
            r == self.last_position(),
    {
        ((self.start as i64) + (self.count as i64) - 1) as i32
    }
}

/// Negative weights count as 0.
pub open spec fn nonneg(w: Seq<int>) -> Seq<int> {
    w.map_values(
        |x: int|
            if x > 0 {
                x
            } else {
                0
            },
    )
}

/// The sum of the first `k` numbers.
pub open spec fn prefix_sum(w: Seq<int>, k: int) -> int
    decreases k,
{
    if k <= 0 {
        0
    } else {
        prefix_sum(w, k - 1) + w[k - 1]
    }
}

pub open spec fn total(w: Seq<int>) -> int {
    prefix_sum(w, w.len() as int)
}

/// The first device, from `k` on, whose cumulative share of `count` positions
/// exceeds `x / total`; the last device where none before it does.
pub open spec fn first_past(w: Seq<int>, count: int, x: int, k: int) -> int
    decreases w.len() - k,
{
    if k < 0 || k >= w.len() - 1 || prefix_sum(w, k + 1) * count > x {
        k
    } else {
        first_past(w, count, x, k + 1)
    }
}

/// The device that position `pos` goes to.
pub open spec fn owner(w: Seq<int>, count: int, pos: int) -> int {
    first_past(w, count, pos * total(w), 0)
}

/// How many of the first `n` positions go to device `k`.
pub open spec fn owned(w: Seq<int>, count: int, k: int, n: int) -> int
    decreases n,
{
    if n <= 0 {
        0
    } else {
        owned(w, count, k, n - 1) + if owner(w, count, n - 1) == k {
            1int
        } else {
            0int
        }
    }
}

/// How many positions each device gets. `None` without a device, without a
/// position and without a weight.
pub open spec fn block_cut(w: Seq<int>, count: int) -> Option<Seq<int>> {
    if w.len() == 0 || count <= 0 || total(nonneg(w)) <= 0 {
        None
    } else {
        Some(Seq::new(w.len(), |k: int| owned(nonneg(w), count, k, count)))
    }
}

proof fn lemma_prefix_sum_bounds(w: Seq<int>, k: int)
    requires
        0 <= k <= w.len(),
        forall|i: int| 0 <= i < w.len() ==> 0 <= #[trigger] w[i] <= i32::MAX,
    ensures
        0 <= prefix_sum(w, k) <= k * i32::MAX,
    decreases k,
{
    if k > 0 {
        lemma_prefix_sum_bounds(w, k - 1);
        assert(w[k - 1] <= i32::MAX);
        assert(k * i32::MAX == (k - 1) * i32::MAX + i32::MAX) by (nonlinear_arith);
    } else {
        assert(k * i32::MAX == 0) by (nonlinear_arith)
            requires
                k == 0,
        ;
    }
}

pub proof fn lemma_prefix_sum_monotone(w: Seq<int>, i: int, j: int)
    requires
        0 <= i <= j <= w.len(),
        forall|k: int| 0 <= k < w.len() ==> 0 <= #[trigger] w[k],
    ensures
        0 <= prefix_sum(w, i) <= prefix_sum(w, j),
    decreases j,
{
    if i < j {
        lemma_prefix_sum_monotone(w, i, j - 1);
        assert(w[j - 1] >= 0);
    } else if i > 0 {
        lemma_prefix_sum_monotone(w, i - 1, i - 1);
        assert(w[i - 1] >= 0);
    }
}

/// The first position behind the share of the first `k` devices.
pub open spec fn cut(w: Seq<int>, count: int, k: int) -> int {
    (prefix_sum(w, k) * count + total(w) - 1) / total(w)
}

pub proof fn lemma_ceil(pos: int, x: int, t: int)
    requires
        t > 0,
    ensures
        pos * t < x <==> pos < (x + t - 1) / t,
{
    let q = (x + t - 1) / t;
    vstd::arithmetic::div_mod::lemma_fundamental_div_mod(x + t - 1, t);
    let r = (x + t - 1) % t;
    assert(0 <= r < t);
    if pos < q {
        assert(pos * t < x) by (nonlinear_arith)
            requires
                x + t - 1 == t * q + r,
                0 <= r < t,
                pos <= q - 1,
                t > 0,
        ;
    } else {
        assert(pos * t >= x) by (nonlinear_arith)
            requires
                x + t - 1 == t * q + r,
                0 <= r < t,
                pos >= q,
                t > 0,
        ;
    }
}

proof fn lemma_first_past(w: Seq<int>, count: int, x: int, k: int)
    requires
        0 <= k < w.len(),
        count > 0,
        x < total(w) * count,
        k > 0 ==> prefix_sum(w, k) * count <= x,
        k == 0 ==> 0 <= x,
    ensures
        ({
            let o = first_past(w, count, x, k);
            &&& k <= o < w.len()
            &&& prefix_sum(w, o) * count <= x < prefix_sum(w, o + 1) * count
        }),
    decreases w.len() - k,
{
    if k == 0 {
        assert(prefix_sum(w, 0) * count == 0) by (nonlinear_arith)
            requires
                prefix_sum(w, 0) == 0,
        ;
    }
    if k < w.len() - 1 && prefix_sum(w, k + 1) * count <= x {
        lemma_first_past(w, count, x, k + 1);
    }
}

/// The devices' shares lie one behind the other: position `pos` goes to the device
/// between whose two cuts it lies.
proof fn lemma_owner_between_cuts(w: Seq<int>, count: int, pos: int, k: int)
    requires
        0 < w.len(),
        0 <= k < w.len(),
        0 <= pos < count,
        total(w) > 0,
        forall|i: int| 0 <= i < w.len() ==> 0 <= #[trigger] w[i],
    ensures
        owner(w, count, pos) == k <==> cut(w, count, k) <= pos < cut(w, count, k + 1),
        0 <= owner(w, count, pos) < w.len(),
{
    let t = total(w);
    let x = pos * t;
    assert(0 <= x < t * count) by (nonlinear_arith)
        requires
            0 <= pos < count,
            t > 0,
            x == pos * t,
    ;
    lemma_first_past(w, count, x, 0);
    let o = owner(w, count, pos);
    lemma_ceil(pos, prefix_sum(w, k) * count, t);
    lemma_ceil(pos, prefix_sum(w, k + 1) * count, t);
    if o < k {
        lemma_prefix_sum_monotone(w, o + 1, k);
        assert(prefix_sum(w, o + 1) * count <= prefix_sum(w, k) * count) by (nonlinear_arith)
            requires
                prefix_sum(w, o + 1) <= prefix_sum(w, k),
                count > 0,
        ;
    } else if o > k {
        lemma_prefix_sum_monotone(w, k + 1, o);
        assert(prefix_sum(w, k + 1) * count <= prefix_sum(w, o) * count) by (nonlinear_arith)
            requires
                prefix_sum(w, k + 1) <= prefix_sum(w, o),
                count > 0,
        ;
    }
}

proof fn lemma_cut_shape(w: Seq<int>, count: int, k: int)
    requires
        0 <= k < w.len(),
        0 < count,
        total(w) > 0,
        forall|i: int| 0 <= i < w.len() ==> 0 <= #[trigger] w[i],
    ensures
        0 <= cut(w, count, k) <= cut(w, count, k + 1) <= count,
        cut(w, count, 0) == 0,
        cut(w, count, w.len() as int) == count,
{
    let t = total(w);
    let (a, b) = (prefix_sum(w, k), prefix_sum(w, k + 1));
    lemma_prefix_sum_monotone(w, k, k + 1);
    lemma_prefix_sum_monotone(w, k + 1, w.len() as int);
    assert(0 <= a * count <= b * count <= t * count) by (nonlinear_arith)
        requires
            0 <= a <= b <= t,
            count > 0,
    ;
    vstd::arithmetic::div_mod::lemma_div_is_ordered(a * count + t - 1, b * count + t - 1, t);
    vstd::arithmetic::div_mod::lemma_div_is_ordered(b * count + t - 1, t * count + t - 1, t);
    vstd::arithmetic::div_mod::lemma_div_pos_is_pos(a * count + t - 1, t);
    assert((t * count + t - 1) / t == count) by {
        vstd::arithmetic::div_mod::lemma_fundamental_div_mod_converse(
            t * count + t - 1,
            t,
            count,
            t - 1,
        );
    }
    assert((prefix_sum(w, 0) * count + t - 1) / t == 0) by {
        assert(prefix_sum(w, 0) * count == 0) by (nonlinear_arith)
            requires
                prefix_sum(w, 0) == 0,
        ;
        vstd::arithmetic::div_mod::lemma_basic_div(t - 1, t);
    }
}

proof fn lemma_owned_prefix(w: Seq<int>, count: int, k: int, n: int)
    requires
        0 <= k < w.len(),
        0 <= n <= count,
        0 < count,
        total(w) > 0,
        forall|i: int| 0 <= i < w.len() ==> 0 <= #[trigger] w[i],
    ensures
        owned(w, count, k, n) == (if n < cut(w, count, k) {
            0
        } else if n < cut(w, count, k + 1) {
            n - cut(w, count, k)
        } else {
            cut(w, count, k + 1) - cut(w, count, k)
        }),
    decreases n,
{
    lemma_cut_shape(w, count, k);
    if n > 0 {
        lemma_owned_prefix(w, count, k, n - 1);
        lemma_owner_between_cuts(w, count, n - 1, k);
    }
}

/// A device's count is the distance between its two cuts.
proof fn lemma_owned_is_cut(w: Seq<int>, count: int, k: int)
    requires
        0 <= k < w.len(),
        0 < count,
        total(w) > 0,
        forall|i: int| 0 <= i < w.len() ==> 0 <= #[trigger] w[i],
    ensures
        owned(w, count, k, count) == cut(w, count, k + 1) - cut(w, count, k),
        0 <= owned(w, count, k, count) <= count,
{
    lemma_owned_prefix(w, count, k, count);
    lemma_cut_shape(w, count, k);
}

pub proof fn lemma_counts_prefix(w: Seq<int>, count: int, c: Seq<int>, k: int)
    requires
        0 <= k <= w.len(),
        0 < w.len(),
        0 < count,
        total(w) > 0,
        forall|i: int| 0 <= i < w.len() ==> 0 <= #[trigger] w[i],
        c == Seq::new(w.len(), |i: int| owned(w, count, i, count)),
    ensures
        prefix_sum(c, k) == cut(w, count, k),
    decreases k,
{
    if k > 0 {
        lemma_counts_prefix(w, count, c, k - 1);
        lemma_owned_is_cut(w, count, k - 1);
    } else {
        lemma_cut_shape(w, count, 0);
    }
}

/// Every position goes to exactly one device: the counts are not negative and sum
/// to the number of positions.
pub proof fn law_counts_sum_to_positions(w: Seq<int>, count: int)
    requires
        block_cut(w, count) is Some,
    ensures
        total(block_cut(w, count)->0) == count,
        forall|k: int| 0 <= k < w.len() ==> 0 <= #[trigger] block_cut(w, count)->0[k] <= count,
{
    let n = nonneg(w);
    let c = block_cut(w, count)->0;
    assert(c =~= Seq::new(n.len(), |i: int| owned(n, count, i, count)));
    lemma_counts_prefix(n, count, c, n.len() as int);
    lemma_cut_shape(n, count, 0);
    assert forall|k: int| 0 <= k < w.len() implies 0 <= #[trigger] c[k] <= count by {
        lemma_owned_is_cut(n, count, k);
    }
}

/// The counts are runs: the positions of device `k` are those between the sum of
/// the counts before it and the sum up to it.
pub proof fn law_counts_are_runs(w: Seq<int>, count: int, pos: int, k: int)
    requires
        block_cut(w, count) is Some,
        0 <= pos < count,
        0 <= k < w.len(),
    ensures
        owner(nonneg(w), count, pos) == k <==> prefix_sum(block_cut(w, count)->0, k) <= pos
            < prefix_sum(block_cut(w, count)->0, k + 1),
{
    let n = nonneg(w);
    let c = block_cut(w, count)->0;
    assert(c =~= Seq::new(n.len(), |i: int| owned(n, count, i, count)));
    lemma_counts_prefix(n, count, c, k);
    lemma_counts_prefix(n, count, c, k + 1);
    lemma_owner_between_cuts(n, count, pos, k);
}

/// Weights that sum to the number of positions are the counts.
pub proof fn law_weights_that_sum_are_counts(w: Seq<int>, count: int)
    requires
        count > 0,
        forall|i: int| 0 <= i < w.len() ==> 0 <= #[trigger] w[i],
        total(w) == count,
    ensures
        block_cut(w, count) == Some(w),
{
    assert(nonneg(w) =~= w);
    if w.len() == 0 {
        assert(total(w) == 0);
    }
    let c = block_cut(w, count)->0;
    assert forall|k: int| 0 <= k < w.len() implies c[k] == w[k] by {
        lemma_owned_is_cut(w, count, k);
        let (a, b) = (prefix_sum(w, k), prefix_sum(w, k + 1));
        lemma_prefix_sum_monotone(w, k, k + 1);
        vstd::arithmetic::div_mod::lemma_fundamental_div_mod_converse(
            a * count + count - 1,
            count,
            a,
            count - 1,
        );
        vstd::arithmetic::div_mod::lemma_fundamental_div_mod_converse(
            b * count + count - 1,
            count,
            b,
            count - 1,
        );
        assert(a * count == count * a) by (nonlinear_arith);
        assert(b * count == count * b) by (nonlinear_arith);
        assert(b == a + w[k]);
    }
    assert(c =~= w);
}

/// How many positions each device ends up with.
pub fn block_counts(weights: &[i32], layout: Layout) -> (r: Option<Vec<i32>>)
    ensures
        match r {
            Some(c) => block_cut(ints(weights@), layout.count as int) == Some(ints(c@)),
            None => block_cut(ints(weights@), layout.count as int) is None,
        },
{
    if weights.len() == 0 || layout.count <= 0 {
        return None;
    }
    let ghost w = nonneg(ints(weights@));
    let mut cum: Vec<i128> = Vec::new();
    let mut acc: i128 = 0;
    let mut i: usize = 0;
    while i < weights.len()
        invariant
            i <= weights.len(),
            w == nonneg(ints(weights@)),
            cum@.len() == i,
            acc == prefix_sum(w, i as int),
            0 <= acc <= i * i32::MAX,
            forall|k: int| 0 <= k < i ==> #[trigger] cum@[k] == prefix_sum(w, k + 1),
        decreases weights.len() - i,
    {
        assert(w[i as int] == if weights@[i as int] > 0 {
            weights@[i as int] as int
        } else {
            0
        });
        assert((i + 1) * i32::MAX == i * i32::MAX + i32::MAX) by (nonlinear_arith);
        assert(i * i32::MAX <= 0x1_0000_0000_0000_0000 * 0x8000_0000) by (nonlinear_arith)
            requires
                i <= 0x1_0000_0000_0000_0000,
        ;
        if weights[i] > 0 {
            acc = acc + weights[i] as i128;
        }
        cum.push(acc);
        i += 1;
    }
    let sum: i128 = acc;
    if sum <= 0 {
        return None;
    }
    let count: i128 = layout.count as i128;
    let len: usize = weights.len();
    let mut counts: Vec<i32> = Vec::new();
    let mut j: usize = 0;
    while j < len
        invariant
            j <= len,
            counts@.len() == j,
            forall|k: int| 0 <= k < j ==> counts@[k] == 0,
        decreases len - j,
    {
        counts.push(0);
        j += 1;
    }
    proof {
        assert(weights@.len() * i32::MAX <= 0x1_0000_0000_0000_0000 * 0x8000_0000) by (nonlinear_arith)
            requires
                weights@.len() <= 0x1_0000_0000_0000_0000,
        ;
        assert forall|i: int| 0 <= i < w.len() implies 0 <= #[trigger] w[i] <= i32::MAX by {}
    }
    let mut pos: i128 = 0;
    while pos < count
        invariant
            0 <= pos <= count <= i32::MAX,
            0 < len == w.len() == cum@.len() == counts@.len(),
            forall|k: int| 0 <= k < len ==> #[trigger] cum@[k] == prefix_sum(w, k + 1),
            forall|k: int| 0 <= k < w.len() ==> 0 <= #[trigger] w[k] <= i32::MAX,
            0 < sum == total(w),
            sum <= 0x1_0000_0000_0000_0000 * 0x8000_0000,
            forall|k: int|
                0 <= k < len ==> #[trigger] counts@[k] == owned(w, count as int, k, pos as int) && 0
                    <= counts@[k] <= pos,
        decreases count - pos,
    {
        assert(0 <= pos * sum <= 0x8000_0000 * (0x1_0000_0000_0000_0000 * 0x8000_0000)) by (nonlinear_arith)
            requires
                0 <= pos <= 0x8000_0000,
                0 <= sum <= 0x1_0000_0000_0000_0000 * 0x8000_0000,
        ;
        let x: i128 = pos * sum;
        assert forall|j: int| 0 <= j < len implies 0 <= (#[trigger] cum@[j]) * count <= 0x8000_0000 * (
        0x1_0000_0000_0000_0000 * 0x8000_0000) by {
            lemma_prefix_sum_monotone(w, j + 1, w.len() as int);
            let c = cum@[j];
            assert(0 <= c * count <= 0x8000_0000 * (0x1_0000_0000_0000_0000 * 0x8000_0000))
                by (nonlinear_arith)
                requires
                    0 <= c <= 0x1_0000_0000_0000_0000 * 0x8000_0000,
                    0 <= count <= 0x8000_0000,
            ;
        }
        let mut k: usize = 0;
        while k + 1 < len && cum[k] * count <= x
            invariant
                0 <= k < len,
                0 <= count <= i32::MAX,
                len == w.len() == cum@.len(),
                forall|k: int| 0 <= k < len ==> #[trigger] cum@[k] == prefix_sum(w, k + 1),
                forall|k: int| 0 <= k < w.len() ==> 0 <= #[trigger] w[k] <= i32::MAX,
                sum == total(w),
                sum <= 0x1_0000_0000_0000_0000 * 0x8000_0000,
                first_past(w, count as int, x as int, k as int) == first_past(
                    w,
                    count as int,
                    x as int,
                    0,
                ),
                forall|j: int|
                    0 <= j < len ==> 0 <= (#[trigger] cum@[j]) * count <= 0x8000_0000 * (
                    0x1_0000_0000_0000_0000 * 0x8000_0000),
            decreases len - k,
        {
            k += 1;
        }
        proof {
            lemma_owner_between_cuts(w, count as int, pos as int, 0);
            assert(k == owner(w, count as int, pos as int));
        }
        let ghost before = counts@;
        let was: i32 = counts[k];
        counts.set(k, was + 1);
        assert forall|q: int| 0 <= q < len implies #[trigger] counts@[q] == owned(
            w,
            count as int,
            q,
            pos + 1,
        ) && 0 <= counts@[q] <= pos + 1 by {
            assert(before[q] == owned(w, count as int, q, pos as int));
        }
        pos += 1;
    }
    assert(ints(counts@) =~= Seq::new(w.len(), |k: int| owned(w, count as int, k, count as int)));
    Some(counts)
}

/// The label of a device's positions. The output layer is named, because it is
/// a position but not a block.
pub open spec fn range_text(first: int, c: int, output: int) -> Seq<char> {
    let last = first + c - 1;
    if c <= 0 {
        "nothing"@
    } else if last >= output {
        if c == 1 {
            "output layer"@
        } else if c == 2 {
            "block "@ + dec_int(first) + " + output"@
        } else {
            "blocks "@ + dec_int(first) + "-"@ + dec_int(last - 1) + " + output"@
        }
    } else if c == 1 {
        "block "@ + dec_int(first)
    } else {
        "blocks "@ + dec_int(first) + "-"@ + dec_int(last)
    }
}

/// The labels of all devices, each starting where the one before it ends.
pub open spec fn range_texts(c: Seq<int>, layout: Layout) -> Seq<Seq<char>> {
    Seq::new(
        c.len(),
        |k: int| range_text(layout.start + prefix_sum(c, k), c[k], layout.last_position()),
    )
}

fn range_label(first: i64, c: i32, output: i32) -> (r: String)
    requires
        i32::MIN <= first <= i32::MAX,
    ensures
        r@ == range_text(first as int, c as int, output as int),
{
    let last: i64 = first + c as i64 - 1;
    if c <= 0 {
        return "nothing".to_owned();
    }
    if last >= output as i64 {
        if c == 1 {
            return "output layer".to_owned();
        }
        if c == 2 {
            let mut out: String = "block ".to_owned();
            push_int(&mut out, first);
            out.append(" + output");
            return out;
        }
        let mut out: String = "blocks ".to_owned();
        push_int(&mut out, first);
        out.append("-");
        push_int(&mut out, last - 1);
        out.append(" + output");
        return out;
    }
    if c == 1 {
        let mut out: String = "block ".to_owned();
        push_int(&mut out, first);
        return out;
    }
    let mut out: String = "blocks ".to_owned();
    push_int(&mut out, first);
    out.append("-");
    push_int(&mut out, last);
    out
}

/// The range labels that go with [`block_counts`].
pub fn block_ranges(counts: &[i32], layout: Layout) -> (r: Vec<String>)
    requires
        i32::MIN <= layout.start + layout.count - 1 <= i32::MAX,
        forall|k: int|
            0 <= k <= counts@.len() ==> i32::MIN < layout.start + #[trigger] prefix_sum(
                ints(counts@),
                k,
            ) <= i32::MAX,
    ensures
        strs(r@) == range_texts(ints(counts@), layout),
{
    let mut out: Vec<String> = Vec::new();
    let output: i32 = layout.output_position();
    let mut pos: i64 = layout.start as i64;
    let mut i: usize = 0;
    while i < counts.len()
        invariant
            i <= counts.len(),
            out@.len() == i,
            output == layout.last_position(),
            pos == layout.start + prefix_sum(ints(counts@), i as int),
            forall|k: int|
                0 <= k <= counts@.len() ==> i32::MIN < layout.start + #[trigger] prefix_sum(
                    ints(counts@),
                    k,
                ) <= i32::MAX,
            forall|k: int|
                0 <= k < i ==> (#[trigger] out@[k])@ == range_texts(ints(counts@), layout)[k],
        decreases counts.len() - i,
    {
        assert(ints(counts@)[i as int] == counts@[i as int]);
        assert(i32::MIN < layout.start + prefix_sum(ints(counts@), i as int) <= i32::MAX);
        out.push(range_label(pos, counts[i], output));
        pos = pos + counts[i] as i64;
        i += 1;
    }
    assert(strs(out@) =~= range_texts(ints(counts@), layout));
    out
}

// ── Edits ────────────────────────────────────────────────────────────────

/// A device that is there goes, with its weight; one that is not comes last, at
/// weight 1 where the others are weighted.
pub open spec fn toggled(ps: Seq<(Seq<char>, int)>, id: Seq<char>) -> Seq<(Seq<char>, int)> {
    let i = find_ignore_case(ids_of(ps), id);
    if i >= 0 {
        ps.remove(i)
    } else {
        ps.push(
            (
                id,
                if weighted(ps) {
                    1int
                } else {
                    0int
                },
            ),
        )
    }
}

/// A selection after a device was checked or unchecked.
pub open spec fn switched(sel: Selection, id: Seq<char>) -> Selection {
    rendered(toggled(picks_of(sel), id))
}

/// Checks or unchecks a device.
pub fn toggle(sel: &GpuSelection, id: &str) -> (r: GpuSelection)
    ensures
        r@ == switched(sel@, id@),
{
    let mut v = picks(sel);
    let ghost before = v@;
    match find_pick(&v, id) {
        Some(i) => {
            v.remove(i);
            assert(pick_views(v@) =~= pick_views(before).remove(i as int));
        },
        None => {
            let w: i32 = if any_weight(&v) {
                1
            } else {
                0
            };
            v.push((id.to_owned(), w));
            assert(pick_views(v@) =~= pick_views(before).push((id@, w as int)));
        },
    }
    render(&v)
}

pub proof fn lemma_find_ignore_case_shape(v: Seq<Seq<char>>, x: Seq<char>)
    ensures
        -1 <= find_ignore_case(v, x) < v.len(),
        find_ignore_case(v, x) >= 0 ==> lower_all(v[find_ignore_case(v, x)]) == lower_all(x),
        forall|k: int|
            0 <= k < v.len() && (find_ignore_case(v, x) < 0 || k < find_ignore_case(v, x))
                ==> lower_all(#[trigger] v[k]) != lower_all(x),
    decreases v.len(),
{
    if v.len() > 0 {
        let init = v.drop_last();
        lemma_find_ignore_case_shape(init, x);
        assert forall|k: int|
            0 <= k < v.len() && (find_ignore_case(v, x) < 0 || k < find_ignore_case(
                v,
                x,
            )) implies lower_all(#[trigger] v[k]) != lower_all(x) by {
            if k < init.len() {
                assert(v[k] == init[k]);
            }
        }
    }
}

/// Checking a device that was not there and unchecking it again changes no
/// device and no effective weight.
pub proof fn law_toggle_twice(sel: Selection, id: Seq<char>)
    requires
        is_entry(id, ','),
        find_ignore_case(ids_of(picks_of(sel)), id) < 0,
    ensures
        rendered(
            toggled(picks_of(rendered(toggled(picks_of(sel), id))), id),
        ) == rendered(picks_of(sel)),
{
    let ps = picks_of(sel);
    let qs = toggled(ps, id);
    lemma_picks_are_clean(sel);
    assert forall|i: int| 0 <= i < qs.len() implies is_entry((#[trigger] qs[i]).0, ',') && 0
        <= qs[i].1 <= i32::MAX by {
        if i < ps.len() {
            assert(qs[i] == ps[i]);
        }
    }
    law_render_reads_back(qs);
    if weighted(ps) {
        let k = choose|k: int| 0 <= k < ps.len() && (#[trigger] ps[k]).1 > 0;
        assert(qs[k] == ps[k]);
        assert(weighted(qs));
    } else {
        assert forall|i: int| 0 <= i < qs.len() implies (#[trigger] qs[i]).1 <= 0 by {
            if i < ps.len() {
                assert(qs[i] == ps[i]);
            }
        }
    }
    let again = picks_of(rendered(qs));
    assert(again == qs);
    lemma_find_ignore_case_shape(ids_of(ps), id);
    lemma_find_ignore_case_shape(ids_of(qs), id);
    let at = find_ignore_case(ids_of(qs), id);
    assert(ids_of(qs)[ps.len() as int] == id);
    if 0 <= at < ps.len() {
        assert(ids_of(qs)[at] == ids_of(ps)[at]);
    }
    assert(at == ps.len());
    assert(qs.remove(at) =~= ps);
}

/// Where a device lands that is moved `delta` places from `from` in a list of `n`.
pub open spec fn landing(from: int, delta: int, n: int) -> int {
    if from + delta < 0 {
        0
    } else if from + delta > n - 1 {
        n - 1
    } else {
        from + delta
    }
}

/// A selection after a device was moved within the split.
pub open spec fn moved(sel: Selection, id: Seq<char>, delta: int) -> Selection {
    let ps = picks_of(sel);
    let from = find_ignore_case(ids_of(ps), id);
    let to = landing(from, delta, ps.len() as int);
    if from < 0 || to == from {
        sel
    } else {
        rendered(ps.remove(from).insert(to, ps[from]))
    }
}

/// Moves a checked device within the split, stopping at the ends. Its weight goes
/// with it.
pub fn move_by(sel: &GpuSelection, id: &str, delta: i32) -> (r: GpuSelection)
    ensures
        r@ == moved(sel@, id@, delta as int),
{
    let mut v = picks(sel);
    let ghost before = v@;
    let from: usize = match find_pick(&v, id) {
        Some(i) => i,
        None => return sel.clone(),
    };
    let last: usize = v.len() - 1;
    let wanted: i128 = from as i128 + delta as i128;
    let to: usize = if wanted < 0 {
        0
    } else if wanted > last as i128 {
        last
    } else {
        wanted as usize
    };
    if to == from {
        return sel.clone();
    }
    let pick = v.remove(from);
    v.insert(to, pick);
    proof {
        let ps = pick_views(before);
        assert(pick_views(v@) =~= ps.remove(from as int).insert(to as int, ps[from as int]));
    }
    render(&v)
}

/// A move keeps every device with its weight.
pub proof fn law_move_is_a_permutation(ps: Seq<(Seq<char>, int)>, from: int, to: int)
    requires
        0 <= from < ps.len(),
        0 <= to < ps.len(),
    ensures
        ps.remove(from).insert(to, ps[from]).to_multiset() == ps.to_multiset(),
{
    broadcast use vstd::seq_lib::group_to_multiset_ensures;

    let cut = ps.remove(from);
    let put = cut.insert(to, ps[from]);
    assert(put.to_multiset() =~= cut.to_multiset().insert(ps[from]));
    assert(cut.insert(from, ps[from]) =~= ps);
    assert(ps.to_multiset() =~= cut.to_multiset().insert(ps[from]));
}

/// Every pick gets the one weight.
pub open spec fn all_at(ps: Seq<(Seq<char>, int)>, w: int) -> Seq<(Seq<char>, int)> {
    ps.map_values(|p: (Seq<char>, int)| (p.0, w))
}

/// One device's weight is set. In auto mode the others are seeded to 1 first.
pub open spec fn reweighted(ps: Seq<(Seq<char>, int)>, id: Seq<char>, weight: int) -> Seq<
    (Seq<char>, int),
> {
    let seeded = if weighted(ps) {
        ps
    } else {
        all_at(ps, 1)
    };
    seeded.map_values(
        |p: (Seq<char>, int)|
            if lower_all(p.0) == lower_all(id) {
                (
                    p.0,
                    if weight > 0 {
                        weight
                    } else {
                        0
                    },
                )
            } else {
                p
            },
    )
}

/// A selection after the weight of a device was set.
pub open spec fn weight_set(sel: Selection, id: Seq<char>, weight: int) -> Selection {
    let ps = picks_of(sel);
    if find_ignore_case(ids_of(ps), id) < 0 {
        sel
    } else {
        rendered(reweighted(ps, id, weight))
    }
}

/// Sets one device's weight; a negative one counts as 0.
pub fn set_weight(sel: &GpuSelection, id: &str, weight: i32) -> (r: GpuSelection)
    ensures
        r@ == weight_set(sel@, id@, weight as int),
{
    let v = picks(sel);
    if find_pick(&v, id).is_none() {
        return sel.clone();
    }
    let seed: bool = !any_weight(&v);
    let mut out: Vec<Pick> = Vec::new();
    let mut i: usize = 0;
    while i < v.len()
        invariant
            i <= v.len(),
            out@.len() == i,
            seed == !weighted(pick_views(v@)),
            forall|k: int|
                0 <= k < i ==> (#[trigger] out@[k]).0@ == v@[k].0@ && out@[k].1 as int == reweighted(
                    pick_views(v@),
                    id@,
                    weight as int,
                )[k].1,
        decreases v.len() - i,
    {
        let mut w: i32 = if seed {
            1
        } else {
            v[i].1
        };
        if str_eq_ignore_case(v[i].0.as_str(), id) {
            w = if weight > 0 {
                weight
            } else {
                0
            };
        }
        out.push((v[i].0.clone(), w));
        i += 1;
    }
    assert(pick_views(out@) =~= reweighted(pick_views(v@), id@, weight as int));
    render(&out)
}

/// `count` positions over `n` devices, the remainder to the back.
pub open spec fn even_cut(n: nat, count: int) -> Seq<int> {
    let m = if n <= i32::MAX {
        n as int
    } else {
        i32::MAX as int
    };
    Seq::new(
        n,
        |i: int|
            count / m + if i >= n - count % m {
                1int
            } else {
                0int
            },
    )
}

fn even_counts(n: usize, count: i32) -> (r: Vec<i32>)
    requires
        count >= 0,
    ensures
        ints(r@) == even_cut(n as nat, count as int),
{
    let mut out: Vec<i32> = Vec::new();
    if n == 0 {
        assert(ints(out@) =~= even_cut(n as nat, count as int));
        return out;
    }
    let m: i32 = if n <= i32::MAX as usize {
        n as i32
    } else {
        i32::MAX
    };
    let base: i32 = count / m;
    let rem: i32 = count % m;
    proof {
        vstd::arithmetic::div_mod::lemma_fundamental_div_mod(count as int, m as int);
        assert(base * m <= count) by (nonlinear_arith)
            requires
                count == m * base + rem,
                rem >= 0,
        ;
        assert(base <= count) by (nonlinear_arith)
            requires
                base * m <= count,
                m >= 1,
                base >= 0,
        ;
        assert(base == i32::MAX ==> rem == 0) by (nonlinear_arith)
            requires
                count == m * base + rem,
                count <= i32::MAX,
                m >= 1,
                rem >= 0,
        ;
    }
    let mut i: usize = 0;
    while i < n
        invariant
            i <= n,
            out@.len() == i,
            0 < m <= n,
            0 <= rem < m,
            base == count as int / m as int,
            rem == count as int % m as int,
            0 <= base <= i32::MAX,
            base == i32::MAX ==> rem == 0,
            m == if n <= i32::MAX {
                n as int
            } else {
                i32::MAX as int
            },
            forall|k: int|
                0 <= k < i ==> #[trigger] out@[k] as int == even_cut(n as nat, count as int)[k],
        decreases n - i,
    {
        let c: i32 = if i >= n - rem as usize {
            base + 1
        } else {
            base
        };
        out.push(c);
        i += 1;
    }
    assert(ints(out@) =~= even_cut(n as nat, count as int));
    out
}

proof fn lemma_even_prefix(n: nat, count: int, k: int)
    requires
        0 < n <= i32::MAX,
        0 <= count,
        0 <= k <= n,
    ensures
        prefix_sum(even_cut(n, count), k) == k * (count / n as int) + if k > n - count % n as int {
            k - (n - count % n as int)
        } else {
            0
        },
    decreases k,
{
    if k > 0 {
        lemma_even_prefix(n, count, k - 1);
        let b = count / n as int;
        assert(k * b == (k - 1) * b + b) by (nonlinear_arith);
    } else {
        assert(0 * (count / n as int) == 0) by (nonlinear_arith);
    }
}

/// An even cut uses every position up and gives no device less than nothing.
pub proof fn law_even_cut_sums(n: nat, count: int)
    requires
        0 < n <= i32::MAX,
        0 <= count,
    ensures
        total(even_cut(n, count)) == count,
        forall|i: int| 0 <= i < n ==> #[trigger] even_cut(n, count)[i] >= 0,
{
    lemma_even_prefix(n, count, n as int);
    vstd::arithmetic::div_mod::lemma_fundamental_div_mod(count, n as int);
    vstd::arithmetic::div_mod::lemma_div_pos_is_pos(count, n as int);
}

/// The sum of the counts from `j` on, without that of the edited device.
pub open spec fn tail_sum(c: Seq<int>, idx: int, j: int) -> int
    decreases c.len() - j,
{
    if j < 0 || j >= c.len() {
        0
    } else {
        tail_sum(c, idx, j + 1) + if j == idx {
            0
        } else {
            c[j]
        }
    }
}

/// The device that takes up what the edited one gives back: the last other one.
pub open spec fn last_other(n: int, idx: int) -> int {
    if idx == n - 1 {
        n - 2
    } else {
        n - 1
    }
}

/// What of `delta` the other devices cannot give, or take.
pub open spec fn leftover(c: Seq<int>, idx: int, delta: int) -> int {
    if delta >= 0 {
        if delta > tail_sum(c, idx, 0) {
            delta - tail_sum(c, idx, 0)
        } else {
            0
        }
    } else if last_other(c.len() as int, idx) < 0 {
        delta
    } else {
        0
    }
}

/// The counts after device `idx` has grown by `delta`. The others give from the
/// back, each as much as it has before the one in front of it gives anything; what
/// a shrinking device frees goes to the last of the others.
pub open spec fn absorbed(c: Seq<int>, idx: int, delta: int) -> Seq<int> {
    Seq::new(
        c.len(),
        |j: int|
            if j == idx {
                c[j] + delta - leftover(c, idx, delta)
            } else if delta < 0 {
                if j == last_other(c.len() as int, idx) {
                    c[j] - delta
                } else {
                    c[j]
                }
            } else if delta <= tail_sum(c, idx, j + 1) {
                c[j]
            } else if delta <= tail_sum(c, idx, j + 1) + c[j] {
                c[j] + tail_sum(c, idx, j + 1) - delta
            } else {
                0
            },
    )
}

/// The counts that an edit starts from: those of the weights, or an even cut
/// where there are none.
pub open spec fn start_counts(ps: Seq<(Seq<char>, int)>, count: int) -> Seq<int> {
    match block_cut(weights_in(ps), count) {
        Some(c) => c,
        None => even_cut(ps.len(), count),
    }
}

/// The counts after device `idx` was asked to have `blocks` of them.
pub open spec fn edited_counts(
    ps: Seq<(Seq<char>, int)>,
    idx: int,
    blocks: int,
    count: int,
) -> Seq<int> {
    let c = start_counts(ps, count);
    absorbed(c, idx, clamped(blocks, count) - c[idx])
}

pub open spec fn clamped(blocks: int, count: int) -> int {
    if blocks < 0 {
        0
    } else if blocks > count {
        count
    } else {
        blocks
    }
}

/// The picks with new weights.
pub open spec fn with_weights(ps: Seq<(Seq<char>, int)>, c: Seq<int>) -> Seq<(Seq<char>, int)> {
    Seq::new(ps.len(), |k: int| (ps[k].0, c[k]))
}

proof fn lemma_tail_total(c: Seq<int>, idx: int, j: int)
    requires
        0 <= idx < c.len(),
        0 <= j <= c.len(),
    ensures
        prefix_sum(c, j) + tail_sum(c, idx, j) + (if idx >= j {
            c[idx]
        } else {
            0
        }) == total(c),
    decreases c.len() - j,
{
    if j < c.len() {
        lemma_tail_total(c, idx, j + 1);
    }
}

pub proof fn lemma_tail_nonneg(c: Seq<int>, idx: int, j: int)
    requires
        0 <= j,
        forall|i: int| 0 <= i < c.len() ==> 0 <= #[trigger] c[i],
    ensures
        0 <= tail_sum(c, idx, j),
        j < c.len() && j != idx ==> c[j] <= tail_sum(c, idx, j),
        j > 0 ==> tail_sum(c, idx, j) <= tail_sum(c, idx, j - 1),
    decreases c.len() - j,
{
    if j < c.len() {
        lemma_tail_nonneg(c, idx, j + 1);
        assert(c[j] >= 0);
    }
    if 0 < j && j - 1 < c.len() {
        assert(c[j - 1] >= 0);
    }
}

proof fn lemma_tail_decreases(c: Seq<int>, idx: int, j: int)
    requires
        0 <= j <= c.len(),
        forall|i: int| 0 <= i < c.len() ==> 0 <= #[trigger] c[i],
    ensures
        tail_sum(c, idx, j) <= tail_sum(c, idx, 0),
    decreases j,
{
    if j > 0 {
        lemma_tail_decreases(c, idx, j - 1);
        lemma_tail_nonneg(c, idx, j);
    }
}

proof fn lemma_absorbed_tail(c: Seq<int>, idx: int, delta: int, j: int)
    requires
        0 <= idx < c.len(),
        0 <= j <= c.len(),
        forall|i: int| 0 <= i < c.len() ==> 0 <= #[trigger] c[i],
    ensures
        delta >= 0 && delta <= tail_sum(c, idx, j) ==> tail_sum(absorbed(c, idx, delta), idx, j)
            == tail_sum(c, idx, j) - delta,
        delta >= 0 && delta > tail_sum(c, idx, j) ==> tail_sum(absorbed(c, idx, delta), idx, j) == 0,
        delta < 0 ==> tail_sum(absorbed(c, idx, delta), idx, j) == tail_sum(c, idx, j) - if j
            <= last_other(c.len() as int, idx) {
            delta
        } else {
            0
        },
    decreases c.len() - j,
{
    if j < c.len() {
        lemma_absorbed_tail(c, idx, delta, j + 1);
        lemma_tail_nonneg(c, idx, j + 1);
        assert(c[j] >= 0);
    }
}

/// An edit of the counts uses every position up again, and the edited device
/// gets what it was asked to have wherever there is another device to give or to
/// take the difference.
pub proof fn law_absorb(c: Seq<int>, idx: int, want: int)
    requires
        0 <= idx < c.len(),
        0 <= want <= total(c),
        forall|i: int| 0 <= i < c.len() ==> 0 <= #[trigger] c[i],
    ensures
        ({
            let a = absorbed(c, idx, want - c[idx]);
            &&& total(a) == total(c)
            &&& forall|i: int| 0 <= i < a.len() ==> 0 <= #[trigger] a[i]
            &&& c.len() >= 2 ==> a[idx] == want
            &&& c.len() == 1 ==> a[idx] == total(c)
        }),
{
    let delta = want - c[idx];
    let a = absorbed(c, idx, delta);
    lemma_tail_total(c, idx, 0);
    lemma_tail_total(a, idx, 0);
    lemma_absorbed_tail(c, idx, delta, 0);
    lemma_tail_nonneg(c, idx, 0);
    assert(prefix_sum(c, 0) == 0 && prefix_sum(a, 0) == 0);
    assert(c[idx] >= 0);
    if c.len() == 1 {
        assert(tail_sum(c, idx, 1) == 0);
    }
    assert forall|i: int| 0 <= i < a.len() implies 0 <= #[trigger] a[i] by {
        assert(c[i] >= 0);
        lemma_tail_nonneg(c, idx, i + 1);
    }
}

pub proof fn lemma_start_counts(ps: Seq<(Seq<char>, int)>, count: int)
    requires
        0 < ps.len(),
        0 <= count <= i32::MAX,
    ensures
        start_counts(ps, count).len() == ps.len(),
        forall|i: int| 0 <= i < ps.len() ==> 0 <= #[trigger] start_counts(ps, count)[i] <= count + 1,
        forall|i: int, j: int|
            0 <= i < ps.len() && 0 <= j < ps.len() && i != j ==> #[trigger] start_counts(ps, count)[i]
                + #[trigger] start_counts(ps, count)[j] <= i32::MAX,
        ps.len() <= i32::MAX ==> total(start_counts(ps, count)) == count,
{
    let c = start_counts(ps, count);
    let w = weights_in(ps);
    if block_cut(w, count) is Some {
        law_counts_sum_to_positions(w, count);
    } else if ps.len() <= i32::MAX {
        law_even_cut_sums(ps.len(), count);
    } else {
        vstd::arithmetic::div_mod::lemma_div_is_ordered(count, i32::MAX as int, i32::MAX as int);
        vstd::arithmetic::div_mod::lemma_div_by_self(i32::MAX as int);
        vstd::arithmetic::div_mod::lemma_div_pos_is_pos(count, i32::MAX as int);
    }
    if block_cut(w, count) is Some || ps.len() <= i32::MAX {
        assert(total(c) == count);
        assert forall|i: int, j: int|
            0 <= i < ps.len() && 0 <= j < ps.len() && i != j implies #[trigger] c[i]
                + #[trigger] c[j] <= count by {
            lemma_tail_total(c, i, 0);
            lemma_tail_nonneg(c, i, j);
            lemma_tail_decreases(c, i, j);
        }
        assert forall|i: int| 0 <= i < ps.len() implies 0 <= #[trigger] c[i] <= count by {
            lemma_tail_total(c, i, 0);
            lemma_tail_nonneg(c, i, 0);
        }
    }
}

/// A selection after the blocks of a device were set.
pub open spec fn blocks_set(sel: Selection, id: Seq<char>, blocks: int, count: int) -> Selection {
    let ps = picks_of(sel);
    let idx = find_ignore_case(ids_of(ps), id);
    if idx < 0 {
        sel
    } else {
        rendered(with_weights(ps, edited_counts(ps, idx, blocks, count)))
    }
}

/// Sets one device's block count. The weights are rewritten as the counts, and
/// the other devices take up the difference from the back.
pub fn set_blocks(sel: &GpuSelection, id: &str, blocks: i32, layout: Layout) -> (r: GpuSelection)
    requires
        layout.count >= 0,
    ensures
        r@ == blocks_set(sel@, id@, blocks as int, layout.count as int),
{
    let v = picks(sel);
    let idx: usize = match find_pick(&v, id) {
        Some(i) => i,
        None => return sel.clone(),
    };
    let n: usize = v.len();
    let ghost ps = pick_views(v@);
    let weights = weights_of(&v);
    let mut counts: Vec<i32> = match block_counts(weights.as_slice(), layout) {
        Some(c) => c,
        None => even_counts(n, layout.count),
    };
    let ghost c0 = ints(counts@);
    proof {
        assert(c0 == start_counts(ps, layout.count as int));
        lemma_start_counts(ps, layout.count as int);
        assert(c0.len() == counts@.len());
        assert(c0[idx as int] == counts@[idx as int]);
    }
    let want: i32 = if blocks < 0 {
        0
    } else if blocks > layout.count {
        layout.count
    } else {
        blocks
    };
    assert(counts@[idx as int] as int <= layout.count + 1);
    let delta0: i64 = want as i64 - counts[idx] as i64;
    let mut delta: i64 = delta0;
    let ghost goal = absorbed(c0, idx as int, delta0 as int);
    let mut j: usize = n;
    while j > 0
        invariant
            j <= n,
            idx < n == counts@.len() == c0.len(),
            goal == absorbed(c0, idx as int, delta0 as int),
            -0x8000_0001 <= delta0 <= 0x8000_0001,
            forall|i: int| 0 <= i < c0.len() ==> 0 <= #[trigger] c0[i] <= i32::MAX,
            delta0 < 0 ==> forall|i: int|
                0 <= i < c0.len() && i != idx ==> (#[trigger] c0[i]) - delta0 <= i32::MAX,
            delta0 >= 0 ==> delta == if delta0 > tail_sum(c0, idx as int, j as int) {
                delta0 - tail_sum(c0, idx as int, j as int)
            } else {
                0
            },
            delta0 < 0 ==> delta == if j <= last_other(n as int, idx as int) {
                0
            } else {
                delta0 as int
            },
            counts@[idx as int] == c0[idx as int],
            forall|k: int| 0 <= k < j && k != idx ==> #[trigger] counts@[k] == c0[k],
            forall|k: int| j <= k < n && k != idx ==> #[trigger] counts@[k] == goal[k],
        decreases j,
    {
        j -= 1;
        proof {
            lemma_tail_nonneg(c0, idx as int, j + 1);
            assert(c0[j as int] >= 0);
        }
        if j != idx && delta != 0 {
            let have: i32 = counts[j];
            if delta > 0 {
                let take: i64 = if delta < have as i64 {
                    delta
                } else {
                    have as i64
                };
                counts.set(j, (have as i64 - take) as i32);
                delta = delta - take;
            } else {
                counts.set(j, (have as i64 - delta) as i32);
                delta = 0;
            }
        }
    }
    assert(delta == leftover(c0, idx as int, delta0 as int));
    proof {
        lemma_tail_nonneg(c0, idx as int, 0);
    }
    let own: i64 = want as i64 - delta;
    assert(0 <= own <= i32::MAX) by {
        if delta0 < 0 && n == 1 {
            assert(own == c0[idx as int]);
        }
    }
    counts.set(idx, own as i32);
    assert(ints(counts@) =~= goal);
    let mut out: Vec<Pick> = Vec::new();
    let mut i: usize = 0;
    while i < n
        invariant
            i <= n,
            n == v@.len() == counts@.len(),
            out@.len() == i,
            forall|k: int|
                0 <= k < i ==> (#[trigger] out@[k]).0@ == v@[k].0@ && out@[k].1 == counts@[k],
        decreases n - i,
    {
        out.push((v[i].0.clone(), counts[i]));
        i += 1;
    }
    assert(pick_views(out@) =~= with_weights(ps, ints(counts@)));
    render(&out)
}

/// After an edit of the blocks the launch cuts where the edit said: reading the
/// selection and cutting again gives the edited counts, the edited device has the
/// blocks that were asked for, and no position is lost.
pub proof fn law_set_blocks_reads_back(sel: Selection, idx: int, blocks: int, count: int)
    requires
        2 <= picks_of(sel).len() <= i32::MAX,
        0 <= idx < picks_of(sel).len(),
        0 < count <= i32::MAX,
    ensures
        ({
            let ps = picks_of(sel);
            let c = edited_counts(ps, idx, blocks, count);
            let again = picks_of(rendered(with_weights(ps, c)));
            &&& again == with_weights(ps, c)
            &&& block_cut(weights_in(again), count) == Some(c)
            &&& c[idx] == clamped(blocks, count)
            &&& total(c) == count
        }),
{
    let ps = picks_of(sel);
    let c0 = start_counts(ps, count);
    lemma_start_counts(ps, count);
    let c = edited_counts(ps, idx, blocks, count);
    law_absorb(c0, idx, clamped(blocks, count));
    let qs = with_weights(ps, c);
    lemma_picks_are_clean(sel);
    assert forall|i: int| 0 <= i < qs.len() implies is_entry((#[trigger] qs[i]).0, ',') && 0
        <= qs[i].1 <= i32::MAX by {
        assert(is_entry(ps[i].0, ','));
        assert(c[i] >= 0);
        lemma_tail_total(c, i, 0);
        lemma_tail_nonneg(c, i, 0);
    }
    assert(weighted(qs)) by {
        if forall|i: int| 0 <= i < qs.len() ==> (#[trigger] qs[i]).1 <= 0 {
            assert forall|i: int| 0 <= i < c.len() implies #[trigger] c[i] == 0 by {
                assert(qs[i].1 == c[i]);
            }
            lemma_zero_sum(c, c.len() as int);
        }
    }
    law_render_reads_back(qs);
    assert(weights_in(qs) =~= c);
    law_weights_that_sum_are_counts(c, count);
}

pub proof fn lemma_zero_sum(c: Seq<int>, k: int)
    requires
        0 <= k <= c.len(),
        forall|i: int| 0 <= i < c.len() ==> #[trigger] c[i] == 0,
    ensures
        prefix_sum(c, k) == 0,
    decreases k,
{
    if k > 0 {
        lemma_zero_sum(c, k - 1);
    }
}

fn all_weighted(sel: &GpuSelection, w: i32) -> (r: GpuSelection)
    ensures
        r@ == rendered(all_at(picks_of(sel@), w as int)),
{
    let v = picks(sel);
    let mut out: Vec<Pick> = Vec::new();
    let mut i: usize = 0;
    while i < v.len()
        invariant
            i <= v.len(),
            out@.len() == i,
            forall|k: int| 0 <= k < i ==> (#[trigger] out@[k]).0@ == v@[k].0@ && out@[k].1 == w,
        decreases v.len() - i,
    {
        out.push((v[i].0.clone(), w));
        i += 1;
    }
    assert(pick_views(out@) =~= all_at(pick_views(v@), w as int));
    render(&out)
}

/// A selection without explicit weights.
pub open spec fn made_auto(sel: Selection) -> Selection {
    rendered(all_at(picks_of(sel), 0))
}

/// A selection with the same weight for every device.
pub open spec fn made_even(sel: Selection) -> Selection {
    rendered(all_at(picks_of(sel), 1))
}

/// Auto: drops the explicit weights.
pub fn set_auto(sel: &GpuSelection) -> (r: GpuSelection)
    ensures
        r@ == made_auto(sel@),
{
    all_weighted(sel, 0)
}

/// Even: gives every selected device the same weight.
pub fn set_even(sel: &GpuSelection) -> (r: GpuSelection)
    ensures
        r@ == made_even(sel@),
{
    all_weighted(sel, 1)
}

// ── Display ──────────────────────────────────────────────────────────────

/// One row of the table.
#[derive(Debug, Clone, PartialEq, Eq)]
pub struct GpuRow {
    pub id: String,
    pub name: String,
    pub vram: String,
    pub detected: bool,
    pub enabled: bool,
    pub weight: i32,
    pub share: String,
    pub blocks: i32,
    pub blocks_label: String,
}

/// A row as text and numbers.
#[verifier::ext_equal]
pub struct Row {
    pub id: Seq<char>,
    pub name: Seq<char>,
    pub vram: Seq<char>,
    pub detected: bool,
    pub enabled: bool,
    pub weight: int,
    pub share: Seq<char>,
    pub blocks: int,
    pub blocks_label: Seq<char>,
}

impl View for GpuRow {
    type V = Row;

    open spec fn view(&self) -> Row {
        Row {
            id: self.id@,
            name: self.name@,
            vram: self.vram@,
            detected: self.detected,
            enabled: self.enabled,
            weight: self.weight as int,
            share: self.share@,
            blocks: self.blocks as int,
            blocks_label: self.blocks_label@,
        }
    }
}

pub open spec fn rows_view(v: Seq<GpuRow>) -> Seq<Row> {
    v.map_values(|r: GpuRow| r@)
}

/// The share column of a selected device.
pub open spec fn share_text(n: nat, weight: int, sum: int) -> Seq<char> {
    if n < 2 {
        "100%"@
    } else if sum <= 0 {
        "auto"@
    } else {
        dec(round_half_even((weight * 100) as nat, sum as nat)) + "%"@
    }
}

/// The first device with the id that is not the CPU, or -1.
pub open spec fn probed_at(ds: Seq<Device>, id: Seq<char>) -> int
    decreases ds.len(),
{
    if ds.len() == 0 {
        -1
    } else if probed_at(ds.drop_last(), id) >= 0 {
        probed_at(ds.drop_last(), id)
    } else if lower_all(ds.last().id) == lower_all(id) && !names_cpu(ds.last().id) {
        ds.len() - 1
    } else {
        -1
    }
}

/// Counts and labels of the blocks, where a layout gives them.
pub open spec fn projected(ps: Seq<(Seq<char>, int)>, layout: Option<Layout>) -> Option<
    (Seq<int>, Seq<Seq<char>>),
> {
    match layout {
        Some(l) => match block_cut(weights_in(ps), l.count as int) {
            Some(c) => Some((c, range_texts(c, l))),
            None => None,
        },
        None => None,
    }
}

/// The row of the `i`-th pick.
pub open spec fn checked_row(
    ds: Seq<Device>,
    ps: Seq<(Seq<char>, int)>,
    layout: Option<Layout>,
    i: int,
) -> Row {
    let at = probed_at(ds, ps[i].0);
    Row {
        id: ps[i].0,
        name: if at >= 0 {
            ds[at].name
        } else {
            "(not detected)"@
        },
        vram: if at >= 0 {
            vram_text(ds[at])
        } else {
            Seq::empty()
        },
        detected: at >= 0,
        enabled: true,
        weight: ps[i].1,
        share: share_text(ps.len(), ps[i].1, total(weights_in(ps))),
        blocks: match projected(ps, layout) {
            Some(p) => p.0[i],
            None => 0,
        },
        blocks_label: match projected(ps, layout) {
            Some(p) => p.1[i],
            None => Seq::empty(),
        },
    }
}

/// The row of a device that is not selected.
pub open spec fn unchecked_row(d: Device) -> Row {
    Row {
        id: d.id,
        name: d.name,
        vram: vram_text(d),
        detected: true,
        enabled: false,
        weight: 0,
        share: "—"@,
        blocks: 0,
        blocks_label: Seq::empty(),
    }
}

/// The rows of the devices that are neither the CPU nor selected, in probe order.
pub open spec fn unchecked_rows(ds: Seq<Device>, ps: Seq<(Seq<char>, int)>) -> Seq<Row>
    decreases ds.len(),
{
    if ds.len() == 0 {
        Seq::empty()
    } else {
        let before = unchecked_rows(ds.drop_last(), ps);
        let d = ds.last();
        if names_cpu(d.id) || find_ignore_case(ids_of(ps), d.id) >= 0 {
            before
        } else {
            before.push(unchecked_row(d))
        }
    }
}

/// The table: the selected devices first, in split order, then the others.
pub open spec fn table(
    ds: Seq<Device>,
    ps: Seq<(Seq<char>, int)>,
    layout: Option<Layout>,
) -> Seq<Row> {
    Seq::new(ps.len(), |i: int| checked_row(ds, ps, layout, i)) + unchecked_rows(ds, ps)
}

fn probed_index(devices: &[DeviceOption], id: &str) -> (r: Option<usize>)
    ensures
        match r {
            Some(i) => probed_at(devs(devices@), id@) == i && i < devices@.len(),
            None => probed_at(devs(devices@), id@) < 0,
        },
{
    let mut i: usize = 0;
    let mut found: Option<usize> = None;
    while i < devices.len()
        invariant
            i <= devices.len(),
            match found {
                Some(k) => probed_at(devs(devices@).take(i as int), id@) == k && k < i,
                None => probed_at(devs(devices@).take(i as int), id@) < 0,
            },
        decreases devices.len() - i,
    {
        proof {
            let t = devs(devices@).take(i + 1);
            assert(t.drop_last() =~= devs(devices@).take(i as int));
            assert(t.last() == devices@[i as int]@);
        }
        if found.is_none() && str_eq_ignore_case(devices[i].id.as_str(), id) && !devices[i].is_cpu() {
            found = Some(i);
        }
        i += 1;
    }
    assert(devs(devices@).take(devices@.len() as int) =~= devs(devices@));
    found
}

fn share(count: usize, weight: i32, sum: i32) -> (r: String)
    requires
        weight >= 0,
    ensures
        r@ == share_text(count as nat, weight as int, sum as int),
{
    if count < 2 {
        return "100%".to_owned();
    }
    if sum <= 0 {
        return "auto".to_owned();
    }
    let q: u128 = rounded((weight as u128) * 100, sum as u128);
    let mut out: String = String::new();
    push_dec(&mut out, q as u64);
    out.append("%");
    assert(out@ =~= share_text(count as nat, weight as int, sum as int));
    out
}

proof fn lemma_ranges_fit(w: Seq<int>, layout: Layout, k: int)
    requires
        0 < layout.count,
        block_cut(w, layout.count as int) is Some,
        0 <= k <= w.len(),
    ensures
        0 <= prefix_sum(block_cut(w, layout.count as int)->0, k) <= layout.count,
{
    let c = block_cut(w, layout.count as int)->0;
    law_counts_sum_to_positions(w, layout.count as int);
    lemma_prefix_sum_monotone(c, k, c.len() as int);
}

/// The table rows: the checked devices first, in split order, then every other
/// probed GPU. A checked id that the probe does not know keeps its row. With a
/// layout the rows show the blocks that their weights come to.
pub fn build_rows(devices: &[DeviceOption], sel: &GpuSelection, layout: Option<Layout>) -> (r: Vec<
    GpuRow,
>)
    requires
        layout matches Some(l) ==> l.count <= 0 || (i32::MIN < l.start && l.start + l.count
            <= i32::MAX),
        total(weights_in(picks_of(sel@))) <= i32::MAX,
    ensures
        rows_view(r@) == table(devs(devices@), picks_of(sel@), layout),
{
    let v = picks(sel);
    let ghost ps = picks_of(sel@);
    let ghost ds = devs(devices@);
    let weights = weights_of(&v);
    let mut sum: i32 = 0;
    let mut i: usize = 0;
    proof {
        assert(ints(weights@).len() == weights@.len());
        assert(weights_in(ps).len() == ps.len());
        assert forall|k: int| 0 <= k < ps.len() implies 0 <= #[trigger] weights_in(ps)[k] by {
            assert(pick_views(v@)[k].1 == v@[k].1);
        }
    }
    while i < weights.len()
        invariant
            i <= weights.len(),
            ints(weights@) == weights_in(ps),
            weights_in(ps).len() == weights@.len(),
            total(weights_in(ps)) <= i32::MAX,
            forall|k: int| 0 <= k < weights@.len() ==> 0 <= #[trigger] weights_in(ps)[k],
            sum == prefix_sum(weights_in(ps), i as int),
        decreases weights.len() - i,
    {
        proof {
            lemma_prefix_sum_monotone(weights_in(ps), i as int, i + 1);
            lemma_prefix_sum_monotone(weights_in(ps), i + 1, weights@.len() as int);
            assert(ints(weights@)[i as int] == weights@[i as int]);
        }
        sum = sum + weights[i];
        i += 1;
    }
    let mut counts: Vec<i32> = Vec::new();
    let mut labels: Vec<String> = Vec::new();
    let mut drawn: bool = false;
    if let Some(l) = layout {
        if let Some(c) = block_counts(weights.as_slice(), l) {
            proof {
                assert forall|k: int| 0 <= k <= c@.len() implies i32::MIN < l.start
                    + #[trigger] prefix_sum(ints(c@), k) <= i32::MAX by {
                    lemma_ranges_fit(weights_in(ps), l, k);
                }
            }
            labels = block_ranges(c.as_slice(), l);
            counts = c;
            drawn = true;
            assert(strs(labels@).len() == labels@.len());
            assert(ints(counts@).len() == counts@.len());
        }
    }
    let mut out: Vec<GpuRow> = Vec::new();
    let mut k: usize = 0;
    while k < v.len()
        invariant
            k <= v.len(),
            pick_views(v@) == ps,
            ds == devs(devices@),
            out@.len() == k,
            sum == total(weights_in(ps)),
            forall|i: int| 0 <= i < v@.len() ==> (#[trigger] v@[i]).1 >= 0,
            drawn == projected(ps, layout) is Some,
            drawn ==> projected(ps, layout) == Some((ints(counts@), strs(labels@))),
            drawn ==> counts@.len() == labels@.len() == v@.len(),
            forall|i: int| 0 <= i < k ==> (#[trigger] out@[i])@ == checked_row(ds, ps, layout, i),
        decreases v.len() - k,
    {
        let at: Option<usize> = probed_index(devices, v[k].0.as_str());
        let (name, vram) = match at {
            Some(d) => (devices[d].name.clone(), devices[d].vram_summary()),
            None => ("(not detected)".to_owned(), String::new()),
        };
        proof {
            assert(pick_views(v@)[k as int] == (v@[k as int].0@, v@[k as int].1 as int));
            if drawn {
                assert(ints(counts@)[k as int] == counts@[k as int]);
                assert(strs(labels@)[k as int] == labels@[k as int]@);
            }
        }
        let row = GpuRow {
            id: v[k].0.clone(),
            name,
            vram,
            detected: at.is_some(),
            enabled: true,
            weight: v[k].1,
            share: share(v.len(), v[k].1, sum),
            blocks: if drawn {
                counts[k]
            } else {
                0
            },
            blocks_label: if drawn {
                labels[k].clone()
            } else {
                String::new()
            },
        };
        assert(row@ =~= checked_row(ds, ps, layout, k as int));
        out.push(row);
        k += 1;
    }
    let ghost first = Seq::new(ps.len(), |i: int| checked_row(ds, ps, layout, i));
    assert(rows_view(out@) =~= first);
    let mut d: usize = 0;
    assert(first + unchecked_rows(ds.take(0), ps) =~= first);
    while d < devices.len()
        invariant
            d <= devices.len(),
            pick_views(v@) == ps,
            ds == devs(devices@),
            rows_view(out@) == first + unchecked_rows(ds.take(d as int), ps),
        decreases devices.len() - d,
    {
        let ghost before = out@;
        proof {
            let t = ds.take(d + 1);
            assert(t.drop_last() =~= ds.take(d as int));
            assert(t.last() == devices@[d as int]@);
        }
        if !devices[d].is_cpu() && find_pick(&v, devices[d].id.as_str()).is_none() {
            let row = GpuRow {
                id: devices[d].id.clone(),
                name: devices[d].name.clone(),
                vram: devices[d].vram_summary(),
                detected: true,
                enabled: false,
                weight: 0,
                share: "—".to_owned(),
                blocks: 0,
                blocks_label: String::new(),
            };
            assert(row@ =~= unchecked_row(devices@[d as int]@));
            out.push(row);
            assert(rows_view(out@) =~= rows_view(before).push(row@));
            assert(rows_view(out@) =~= first + unchecked_rows(ds.take(d + 1), ps));
        }
        d += 1;
    }
    assert(ds.take(devices@.len() as int) =~= ds);
    out
}

/// The line under the table.
pub open spec fn summary_text(sel: Selection) -> Seq<char> {
    let n = picks_of(sel).len();
    if n == 0 {
        "(all detected devices — llama.cpp chooses and splits automatically)"@
    } else if sel.tensor_split.len() > 0 {
        "--device "@ + sel.device + "   --tensor-split "@ + sel.tensor_split
    } else if n > 1 {
        "--device "@ + sel.device + "   (auto split, by free VRAM at load)"@
    } else {
        "--device "@ + sel.device
    }
}

/// The flags that a selection produces.
pub fn summary(sel: &GpuSelection) -> (r: String)
    ensures
        r@ == summary_text(sel@),
{
    let v = picks(sel);
    assert(pick_views(v@).len() == v@.len());
    if v.len() == 0 {
        return "(all detected devices — llama.cpp chooses and splits automatically)".to_owned();
    }
    let mut out: String = "--device ".to_owned();
    out.append(sel.device.as_str());
    if sel.tensor_split.as_str().is_empty() {
        if v.len() > 1 {
            out.append("   (auto split, by free VRAM at load)");
        }
    } else {
        out.append("   --tensor-split ");
        out.append(sel.tensor_split.as_str());
    }
    out
}

/// How many devices are selected.
pub fn gpu_count(sel: &GpuSelection) -> (r: i32)
    ensures
        r == if entries(sel@.device, ',').len() <= i32::MAX {
            entries(sel@.device, ',').len() as int
        } else {
            i32::MAX as int
        },
{
    let ids = parse_device_list(sel.device.as_str());
    assert(strs(ids@).len() == ids@.len());
    if ids.len() <= i32::MAX as usize {
        ids.len() as i32
    } else {
        i32::MAX
    }
}

/// The sum of the weights.
pub fn gpu_weight_total(sel: &GpuSelection) -> (r: i32)
    requires
        total(weight_list(sel@.tensor_split)) <= i32::MAX,
    ensures
        r == total(weight_list(sel@.tensor_split)),
{
    let weights = parse_weights(sel.tensor_split.as_str());
    let ghost w = weight_list(sel@.tensor_split);
    let mut sum: i32 = 0;
    let mut i: usize = 0;
    assert(ints(weights@).len() == weights@.len());
    assert forall|k: int| 0 <= k < w.len() implies 0 <= #[trigger] w[k] by {
        assert(ints(weights@)[k] == weights@[k]);
    }
    while i < weights.len()
        invariant
            i <= weights.len(),
            w == ints(weights@),
            w.len() == weights@.len(),
            total(w) <= i32::MAX,
            forall|k: int| 0 <= k < w.len() ==> 0 <= #[trigger] w[k],
            sum == prefix_sum(w, i as int),
        decreases weights.len() - i,
    {
        proof {
            lemma_prefix_sum_monotone(w, i as int, i + 1);
            lemma_prefix_sum_monotone(w, i + 1, w.len() as int);
            assert(w[i as int] == weights@[i as int]);
        }
        sum = sum + weights[i];
        i += 1;
    }
    sum
}

} // verus!
