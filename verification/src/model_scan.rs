//! The model files that the dropdowns offer.
//!
//! [`catalogue`] turns what a walk of a directory found into the list that is
//! offered; [`build_options`] and [`build_draft_options`] turn that list into the
//! rows of a dropdown and the one that is selected. A path that the walk did not
//! find keeps a row of its own.
use vstd::prelude::*;
use vstd::slice::slice_subrange;
use vstd::string::*;
use crate::pathname::{file_name, name_in};
use crate::text::{
    digit, from_chars, is_digit, is_str, lemma_text_less_total, lemma_text_less_transitive, less,
    lower, lower_all, replace_char, replaced_char, same, same_ignore_case, strs, text_less, to_chars,
    to_lower_all, trim, trim_str,
};

verus! {

/// A file that is offered: what it is called, and where it is.
#[derive(Debug, Clone, PartialEq, Eq)]
pub struct FileOption {
    pub label: String,
    pub path: String,
}

/// A file as text: label and path.
pub open spec fn file_view(f: FileOption) -> (Seq<char>, Seq<char>) {
    (f.label@, f.path@)
}

pub open spec fn files(v: Seq<FileOption>) -> Seq<(Seq<char>, Seq<char>)> {
    v.map_values(|f: FileOption| file_view(f))
}

/// A kind of model file.
#[derive(Copy, Clone, PartialEq, Eq, Structural, Debug)]
pub enum Category {
    Model,
    Mmproj,
    /// Draft models and heads for multi-token prediction.
    Mtp,
    /// Block-diffusion drafters.
    Dflash,
}

impl Category {
    /// Whether a preset can do without one.
    pub open spec fn optional(self) -> bool {
        self != Category::Model
    }

    /// Whether a preset can do without one.
    pub fn is_optional(self) -> (r: bool)
        ensures
            r == self.optional(),
    {
        match self {
            Category::Model => false,
            _ => true,
        }
    }

    pub open spec fn directory(self) -> Seq<char> {
        match self {
            Category::Model => "models"@,
            Category::Mmproj => "mmprojs"@,
            Category::Mtp => "mtps"@,
            Category::Dflash => "dflashs"@,
        }
    }

    /// The directory under the models directory that holds them.
    pub fn subdir(self) -> (r: &'static str)
        ensures
            r@ == self.directory(),
    {
        match self {
            Category::Model => "models",
            Category::Mmproj => "mmprojs",
            Category::Mtp => "mtps",
            Category::Dflash => "dflashs",
        }
    }
}

// ── Shards ───────────────────────────────────────────────────────────────

/// Five digits from a place on.
pub open spec fn five_digits(s: Seq<char>, at: int) -> bool {
    &&& 0 <= at
    &&& at + 5 <= s.len()
    &&& forall|k: int| at <= k < at + 5 ==> is_digit(#[trigger] s[k])
}

/// The name and the number of a shard, `name-NNNNN-of-NNNNN`.
pub open spec fn shard_of(stem: Seq<char>) -> Option<(Seq<char>, Seq<char>)> {
    let n = stem.len();
    if n >= 15 && stem[n - 15] == '-' && five_digits(stem, n - 14) && stem.subrange(n - 9, n - 5)
        == "-of-"@ && five_digits(stem, n - 5) {
        Some((stem.take(n - 15), stem.subrange(n - 14, n - 9)))
    } else {
        None
    }
}

fn has_five_digits(c: &[char], at: usize) -> (r: bool)
    requires
        at + 5 <= c@.len(),
    ensures
        r == five_digits(c@, at as int),
{
    digit(c[at]) && digit(c[at + 1]) && digit(c[at + 2]) && digit(c[at + 3]) && digit(c[at + 4])
}

fn shard_parts(c: &[char]) -> (r: Option<(&[char], &[char])>)
    ensures
        match r {
            Some((a, b)) => shard_of(c@) == Some((a@, b@)),
            None => shard_of(c@) is None,
        },
{
    let n: usize = c.len();
    if n < 15 || c[n - 15] != '-' || !has_five_digits(c, n - 14) || !has_five_digits(c, n - 5) {
        return None;
    }
    let mid = slice_subrange(c, n - 9, n - 5);
    assert(mid@ == c@.subrange(n - 9, n - 5));
    if !is_str(mid, "-of-") {
        return None;
    }
    let base = slice_subrange(c, 0, n - 15);
    let counter = slice_subrange(c, n - 14, n - 9);
    assert(base@ =~= c@.take(n - 15));
    Some((base, counter))
}

/// The name and the number of a shard.
pub fn split_shard_suffix(stem: &str) -> (r: Option<(String, String)>)
    ensures
        match r {
            Some((a, b)) => shard_of(stem@) == Some((a@, b@)),
            None => shard_of(stem@) is None,
        },
{
    let c = to_chars(stem);
    match shard_parts(c.as_slice()) {
        Some((a, b)) => Some((from_chars(a), from_chars(b))),
        None => None,
    }
}

/// Whether a name ends in `.gguf`, in any case of its letters.
pub open spec fn ends_in_gguf(name: Seq<char>) -> bool {
    name.len() >= 5 && lower_all(name.skip(name.len() - 5)) == lower_all(".gguf"@)
}

/// A name without its extension `.gguf`.
pub open spec fn stem_of(name: Seq<char>) -> Seq<char> {
    if ends_in_gguf(name) {
        name.take(name.len() - 5)
    } else {
        name
    }
}

/// Whether a file is a shard but not the first.
pub open spec fn is_trailer(name: Seq<char>) -> bool {
    match shard_of(stem_of(name)) {
        Some((_, counter)) => counter != "00001"@,
        None => false,
    }
}

fn gguf_stem(c: &[char]) -> (r: Option<&[char]>)
    ensures
        match r {
            Some(s) => ends_in_gguf(c@) && s@ == c@.take(c@.len() - 5),
            None => !ends_in_gguf(c@),
        },
{
    let n: usize = c.len();
    if n < 5 {
        return None;
    }
    let tail = slice_subrange(c, n - 5, n);
    assert(tail@ =~= c@.skip(n - 5));
    let want = to_chars(".gguf");
    if same_ignore_case(tail, want.as_slice()) {
        let s = slice_subrange(c, 0, n - 5);
        assert(s@ =~= c@.take(n - 5));
        Some(s)
    } else {
        None
    }
}

/// Whether a file is a shard but not the first.
pub fn is_multi_shard_trailer(name: &str) -> (r: bool)
    ensures
        r == is_trailer(name@),
{
    let c = to_chars(name);
    let stem = match gguf_stem(c.as_slice()) {
        Some(s) => s,
        None => c.as_slice(),
    };
    match shard_parts(stem) {
        Some((_, counter)) => !is_str(counter, "00001"),
        None => false,
    }
}

// ── What a walk found ────────────────────────────────────────────────────

/// A file that a walk found: its name, its path, and its place under the directory
/// that was walked.
#[derive(Debug, Clone, PartialEq, Eq)]
pub struct Found {
    pub name: String,
    pub path: String,
    pub label: String,
}

/// Whether a file's extension is `gguf`. A name that begins with its only dot has
/// none.
pub open spec fn is_gguf(name: Seq<char>) -> bool {
    ends_in_gguf(name) && name.len() > 5
}

/// Whether a path stands in a list already, in any case of its letters.
pub open spec fn has_path(v: Seq<(Seq<char>, Seq<char>)>, path: Seq<char>) -> bool {
    exists|i: int| 0 <= i < v.len() && lower_all((#[trigger] v[i]).1) == lower_all(path)
}

/// Where a label belongs in a list: behind all that are not greater.
pub open spec fn place_of(v: Seq<(Seq<char>, Seq<char>)>, label: Seq<char>) -> int
    decreases v.len(),
{
    if v.len() == 0 {
        0
    } else if text_less(lower_all(label), lower_all(v.last().0)) {
        place_of(v.drop_last(), label)
    } else {
        v.len() as int
    }
}

/// The list of the files that were found: models, no shard but the first, no path
/// twice, in the order of the labels whatever their case.
pub open spec fn catalogued(found: Seq<Found>) -> Seq<(Seq<char>, Seq<char>)>
    decreases found.len(),
{
    if found.len() == 0 {
        Seq::empty()
    } else {
        let before = catalogued(found.drop_last());
        let f = found.last();
        if is_gguf(f.name@) && !is_trailer(f.name@) && !has_path(before, f.path@) {
            before.insert(place_of(before, f.label@), (f.label@, f.path@))
        } else {
            before
        }
    }
}

fn path_listed(v: &Vec<FileOption>, path: &str) -> (r: bool)
    ensures
        r == has_path(files(v@), path@),
{
    let c = to_chars(path);
    let key = to_lower_all(c.as_slice());
    let mut i: usize = 0;
    while i < v.len()
        invariant
            i <= v.len(),
            key@ == lower_all(path@),
            forall|k: int| 0 <= k < i ==> lower_all((#[trigger] files(v@)[k]).1) != lower_all(path@),
        decreases v.len() - i,
    {
        assert(files(v@)[i as int] == file_view(v@[i as int]));
        let d = to_chars(v[i].path.as_str());
        let other = to_lower_all(d.as_slice());
        if same(other.as_slice(), key.as_slice()) {
            return true;
        }
        i += 1;
    }
    assert(files(v@).len() == v@.len());
    false
}

fn label_place(v: &Vec<FileOption>, label: &str) -> (r: usize)
    ensures
        r == place_of(files(v@), label@),
        r <= v@.len(),
{
    let ghost view = files(v@);
    let c = to_chars(label);
    let key = to_lower_all(c.as_slice());
    let mut i: usize = v.len();
    assert(view.take(i as int) =~= view);
    while i > 0
        invariant
            i <= v@.len(),
            view == files(v@),
            key@ == lower_all(label@),
            place_of(view, label@) == place_of(view.take(i as int), label@),
        decreases i,
    {
        proof {
            assert(view.take(i as int).last() == file_view(v@[i - 1]));
            assert(view.take(i as int).drop_last() =~= view.take(i - 1));
        }
        let d = to_chars(v[i - 1].label.as_str());
        let other = to_lower_all(d.as_slice());
        if !less(key.as_slice(), other.as_slice()) {
            return i;
        }
        i -= 1;
    }
    0
}

/// The list of the files that a walk found.
pub fn catalogue(found: &Vec<Found>) -> (r: Vec<FileOption>)
    ensures
        files(r@) == catalogued(found@),
{
    let mut out: Vec<FileOption> = Vec::new();
    let mut i: usize = 0;
    assert(found@.take(0) =~= Seq::<Found>::empty());
    assert(files(out@) =~= catalogued(found@.take(0)));
    while i < found.len()
        invariant
            i <= found.len(),
            files(out@) == catalogued(found@.take(i as int)),
        decreases found.len() - i,
    {
        let ghost before = out@;
        proof {
            assert(found@.take(i + 1).drop_last() =~= found@.take(i as int));
            assert(found@.take(i + 1).last() == found@[i as int]);
        }
        let f = &found[i];
        let c = to_chars(f.name.as_str());
        let gguf: bool = gguf_stem(c.as_slice()).is_some() && c.len() > 5;
        if gguf && !is_multi_shard_trailer(f.name.as_str()) && !path_listed(&out, f.path.as_str()) {
            let at: usize = label_place(&out, f.label.as_str());
            out.insert(at, FileOption { label: f.label.clone(), path: f.path.clone() });
            assert(files(out@) =~= files(before).insert(at as int, (f.label@, f.path@)));
        }
        i += 1;
    }
    assert(found@.take(found@.len() as int) =~= found@);
    out
}

/// Labels in rising order, whatever their case.
pub open spec fn in_order(v: Seq<(Seq<char>, Seq<char>)>) -> bool {
    forall|i: int, j: int|
        0 <= i < j < v.len() ==> !text_less(
            lower_all((#[trigger] v[j]).0),
            lower_all((#[trigger] v[i]).0),
        )
}

/// No path twice, whatever its case.
pub open spec fn paths_differ(v: Seq<(Seq<char>, Seq<char>)>) -> bool {
    forall|i: int, j: int|
        0 <= i < j < v.len() ==> lower_all((#[trigger] v[i]).1) != lower_all((#[trigger] v[j]).1)
}

proof fn lemma_place_of(v: Seq<(Seq<char>, Seq<char>)>, label: Seq<char>)
    ensures
        0 <= place_of(v, label) <= v.len(),
        forall|k: int|
            place_of(v, label) <= k < v.len() ==> text_less(
                lower_all(label),
                lower_all((#[trigger] v[k]).0),
            ),
        place_of(v, label) > 0 ==> !text_less(
            lower_all(label),
            lower_all(v[place_of(v, label) - 1].0),
        ),
    decreases v.len(),
{
    if v.len() > 0 && text_less(lower_all(label), lower_all(v.last().0)) {
        let init = v.drop_last();
        lemma_place_of(init, label);
        assert forall|k: int| place_of(v, label) <= k < v.len() implies text_less(
            lower_all(label),
            lower_all((#[trigger] v[k]).0),
        ) by {
            if k < init.len() {
                assert(init[k] == v[k]);
            }
        }
    }
}

/// The list is in the order of its labels, holds no path twice, and holds only
/// models that are no further shard.
pub proof fn law_catalogue(found: Seq<Found>)
    ensures
        in_order(catalogued(found)),
        paths_differ(catalogued(found)),
        forall|i: int|
            0 <= i < catalogued(found).len() ==> exists|k: int|
                0 <= k < found.len() && (#[trigger] catalogued(found)[i]) == (
                    (#[trigger] found[k]).label@,
                    found[k].path@,
                ) && is_gguf(found[k].name@) && !is_trailer(found[k].name@),
    decreases found.len(),
{
    if found.len() > 0 {
        let init = found.drop_last();
        law_catalogue(init);
        let before = catalogued(init);
        let f = found.last();
        let now = catalogued(found);
        assert forall|i: int| 0 <= i < before.len() implies exists|k: int|
            0 <= k < found.len() && (#[trigger] before[i]) == (
                (#[trigger] found[k]).label@,
                found[k].path@,
            ) && is_gguf(found[k].name@) && !is_trailer(found[k].name@) by {
            let k = choose|k: int|
                0 <= k < init.len() && before[i] == ((#[trigger] init[k]).label@, init[k].path@)
                    && is_gguf(init[k].name@) && !is_trailer(init[k].name@);
            assert(found[k] == init[k]);
        }
        if is_gguf(f.name@) && !is_trailer(f.name@) && !has_path(before, f.path@) {
            let at = place_of(before, f.label@);
            lemma_place_of(before, f.label@);
            let item = (f.label@, f.path@);
            assert(now == before.insert(at, item));
            lemma_insert_in_order(before, at, item);
            assert forall|i: int, j: int| 0 <= i < j < now.len() implies lower_all(
                (#[trigger] now[i]).1,
            ) != lower_all((#[trigger] now[j]).1) by {
                if i == at {
                    assert(now[j] == before[j - 1]);
                } else if j == at {
                    assert(now[i] == before[i]);
                } else {
                    let a = if i < at {
                        i
                    } else {
                        i - 1
                    };
                    let b = if j < at {
                        j
                    } else {
                        j - 1
                    };
                    assert(now[i] == before[a] && now[j] == before[b]);
                }
            }
            assert forall|i: int| 0 <= i < now.len() implies exists|k: int|
                0 <= k < found.len() && (#[trigger] now[i]) == (
                    (#[trigger] found[k]).label@,
                    found[k].path@,
                ) && is_gguf(found[k].name@) && !is_trailer(found[k].name@) by {
                if i == at {
                    assert(found[found.len() - 1] == f);
                } else {
                    let a = if i < at {
                        i
                    } else {
                        i - 1
                    };
                    assert(now[i] == before[a]);
                }
            }
        }
    }
}

/// Every file that was found, is a model and is no further shard is listed: there is an
/// option with its path, in any case of the letters.
pub proof fn law_catalogue_is_complete(found: Seq<Found>, k: int)
    requires
        0 <= k < found.len(),
        is_model_name(found[k].name@),
        !is_later_shard(found[k].name@),
    ensures
        exists|i: int|
            0 <= i < catalogued(found).len() && lower_all((#[trigger] catalogued(found)[i]).1)
                == lower_all(found[k].path@),
    decreases found.len(),
{
    let init = found.drop_last();
    let before = catalogued(init);
    let now = catalogued(found);
    let f = found.last();
    let path = found[k].path@;
    lemma_place_of(before, f.label@);
    let at = place_of(before, f.label@);
    if k < init.len() {
        assert(init[k] == found[k]);
        law_catalogue_is_complete(init, k);
        let i = choose|i: int|
            0 <= i < before.len() && lower_all((#[trigger] before[i]).1) == lower_all(path);
        let j = if now == before || i < at {
            i
        } else {
            i + 1
        };
        assert(now[j] == before[i]);
    } else {
        law_model_names(f.name@);
        law_later_shards(f.name@);
        if has_path(before, path) {
            let i = choose|i: int|
                0 <= i < before.len() && lower_all((#[trigger] before[i]).1) == lower_all(path);
            assert(now[i] == before[i]);
        } else {
            assert(now[at] == (f.label@, f.path@));
        }
    }
}

/// Of the files of one path the first that was found is the one that is listed, under
/// its own label.
pub proof fn law_first_found_is_listed(found: Seq<Found>, k: int)
    requires
        0 <= k < found.len(),
        is_model_name(found[k].name@),
        !is_later_shard(found[k].name@),
        forall|j: int| 0 <= j < k ==> lower_all((#[trigger] found[j]).path@) != lower_all(found[k].path@),
    ensures
        catalogued(found).contains((found[k].label@, found[k].path@)),
    decreases found.len(),
{
    let init = found.drop_last();
    let before = catalogued(init);
    let now = catalogued(found);
    let f = found.last();
    let item = (found[k].label@, found[k].path@);
    lemma_place_of(before, f.label@);
    let at = place_of(before, f.label@);
    if k < init.len() {
        assert(init[k] == found[k]);
        assert forall|j: int| 0 <= j < k implies lower_all((#[trigger] init[j]).path@) != lower_all(
            init[k].path@,
        ) by {
            assert(init[j] == found[j]);
        }
        law_first_found_is_listed(init, k);
        let i = choose|i: int| 0 <= i < before.len() && before[i] == item;
        let j = if now == before || i < at {
            i
        } else {
            i + 1
        };
        assert(now[j] == item);
    } else {
        law_model_names(f.name@);
        law_later_shards(f.name@);
        law_catalogue(init);
        if has_path(before, f.path@) {
            let i = choose|i: int|
                0 <= i < before.len() && lower_all((#[trigger] before[i]).1) == lower_all(f.path@);
            let j = choose|j: int|
                0 <= j < init.len() && before[i] == ((#[trigger] init[j]).label@, init[j].path@);
            assert(init[j] == found[j]);
        }
        assert(now[at] == item);
    }
}

/// Whether a name is one of a model: something, and `.gguf` in any case of its letters.
pub open spec fn is_model_name(name: Seq<char>) -> bool {
    let n = name.len() as int;
    &&& n > 5
    &&& name[n - 5] == '.'
    &&& name[n - 4] == 'g' || name[n - 4] == 'G'
    &&& name[n - 3] == 'g' || name[n - 3] == 'G'
    &&& name[n - 2] == 'u' || name[n - 2] == 'U'
    &&& name[n - 1] == 'f' || name[n - 1] == 'F'
}

/// Whether a name is one of a shard that is not the first: behind it stand
/// `-NNNNN-of-NNNNN`, with another number than 00001, and `.gguf`.
pub open spec fn is_later_shard(name: Seq<char>) -> bool {
    exists|base: Seq<char>, a: Seq<char>, b: Seq<char>, end: Seq<char>|
        name == #[trigger] shard_name(base, a, b, end) && is_five(a) && is_five(b) && is_extension(end) && a
            != "00001"@
}

/// Whether a text is five digits.
pub open spec fn is_five(s: Seq<char>) -> bool {
    s.len() == 5 && forall|i: int| 0 <= i < 5 ==> is_digit(#[trigger] s[i])
}

/// Whether a text is `.gguf` in any case of its letters.
pub open spec fn is_extension(s: Seq<char>) -> bool {
    s.len() == 5 && lower_all(s) == ".gguf"@
}

/// The name of a shard.
pub open spec fn shard_name(base: Seq<char>, a: Seq<char>, b: Seq<char>, end: Seq<char>) -> Seq<char> {
    base + "-"@ + a + "-of-"@ + b + end
}

/// The files that are taken for models are those that are named like one.
pub proof fn law_model_names(name: Seq<char>)
    ensures
        is_gguf(name) == is_model_name(name),
{
    reveal_strlit(".gguf");
    let n = name.len() as int;
    let want = lower_all(".gguf"@);
    assert(want =~= seq!['.', 'g', 'g', 'u', 'f']);
    if n > 5 {
        let t = lower_all(name.skip(n - 5));
        assert(t.len() == 5);
        assert(t[0] == lower(name[n - 5]) && t[1] == lower(name[n - 4]) && t[2] == lower(name[n - 3])
            && t[3] == lower(name[n - 2]) && t[4] == lower(name[n - 1]));
        assert(lower(name[n - 5]) == '.' <==> name[n - 5] == '.');
        assert(lower(name[n - 4]) == 'g' <==> name[n - 4] == 'g' || name[n - 4] == 'G');
        assert(lower(name[n - 3]) == 'g' <==> name[n - 3] == 'g' || name[n - 3] == 'G');
        assert(lower(name[n - 2]) == 'u' <==> name[n - 2] == 'u' || name[n - 2] == 'U');
        assert(lower(name[n - 1]) == 'f' <==> name[n - 1] == 'f' || name[n - 1] == 'F');
        if is_model_name(name) {
            assert(t =~= want);
        }
    }
}

/// The number of a shard reads back from its name, and so does what it is a shard of.
pub proof fn law_shard_reads_back(base: Seq<char>, a: Seq<char>, b: Seq<char>)
    requires
        is_five(a),
        is_five(b),
    ensures
        shard_of(base + "-"@ + a + "-of-"@ + b) == Some((base, a)),
{
    reveal_strlit("-");
    reveal_strlit("-of-");
    let s = base + "-"@ + a + "-of-"@ + b;
    let n = s.len() as int;
    assert(n == base.len() + 15);
    assert(s[n - 15] == '-');
    assert(s.subrange(n - 14, n - 9) =~= a);
    assert(s.subrange(n - 9, n - 5) =~= "-of-"@);
    assert(s.subrange(n - 5, n) =~= b);
    assert(s.take(n - 15) =~= base);
    assert forall|k: int| n - 14 <= k < n - 9 implies is_digit(#[trigger] s[k]) by {
        assert(s[k] == a[k - (n - 14)]);
    }
    assert forall|k: int| n - 5 <= k < n implies is_digit(#[trigger] s[k]) by {
        assert(s[k] == b[k - (n - 5)]);
    }
}

/// What is read as a shard is written like one.
proof fn lemma_shard_is_written(s: Seq<char>) -> (b: Seq<char>)
    requires
        shard_of(s) is Some,
    ensures
        s == (shard_of(s)->0).0 + "-"@ + (shard_of(s)->0).1 + "-of-"@ + b,
        is_five((shard_of(s)->0).1),
        is_five(b),
{
    reveal_strlit("-");
    reveal_strlit("-of-");
    let n = s.len() as int;
    let base = s.take(n - 15);
    let a = s.subrange(n - 14, n - 9);
    let b = s.subrange(n - 5, n);
    assert("-"@ =~= seq!['-']);
    let t = base + "-"@ + a + "-of-"@ + b;
    assert(t.len() == n);
    assert forall|k: int| 0 <= k < n implies t[k] == s[k] by {
        if n - 9 <= k < n - 5 {
            assert(s.subrange(n - 9, n - 5)[k - (n - 9)] == s[k]);
        }
    }
    assert(t =~= s);
    assert forall|i: int| 0 <= i < 5 implies is_digit(#[trigger] a[i]) by {
        assert(is_digit(s[n - 14 + i]));
    }
    assert forall|i: int| 0 <= i < 5 implies is_digit(#[trigger] b[i]) by {
        assert(is_digit(s[n - 5 + i]));
    }
    b
}

/// The models that are passed over are the shards that are not the first.
pub proof fn law_later_shards(name: Seq<char>)
    requires
        is_model_name(name),
    ensures
        is_trailer(name) == is_later_shard(name),
{
    reveal_strlit(".gguf");
    assert(lower_all(".gguf"@) =~= ".gguf"@);
    law_model_names(name);
    let n = name.len() as int;
    let stem = name.take(n - 5);
    let end = name.skip(n - 5);
    assert(stem_of(name) == stem);
    assert(name =~= stem + end);
    if is_trailer(name) {
        let (base, a) = shard_of(stem)->0;
        let b = lemma_shard_is_written(stem);
        assert(name =~= shard_name(base, a, b, end));
        assert(is_extension(end));
    }
    if is_later_shard(name) {
        let (base, a, b, e) = choose|base: Seq<char>, a: Seq<char>, b: Seq<char>, e: Seq<char>|
            name == #[trigger] shard_name(base, a, b, e) && is_five(a) && is_five(b) && is_extension(e)
                && a != "00001"@;
        law_shard_reads_back(base, a, b);
        assert(stem =~= base + "-"@ + a + "-of-"@ + b);
    }
}

/// A model is in the list exactly where it is no later shard: the first shard stands
/// for all of them.
pub proof fn law_first_shard_is_listed(f: Found)
    requires
        is_model_name(f.name@),
    ensures
        !is_later_shard(f.name@) ==> catalogued(seq![f]) == seq![(f.label@, f.path@)],
        is_later_shard(f.name@) ==> catalogued(seq![f]).len() == 0,
{
    law_model_names(f.name@);
    law_later_shards(f.name@);
    let found = seq![f];
    assert(found.drop_last() =~= Seq::<Found>::empty());
    let none = Seq::<(Seq<char>, Seq<char>)>::empty();
    assert(catalogued(found.drop_last()) =~= none);
    assert(none.insert(0, (f.label@, f.path@)) =~= seq![(f.label@, f.path@)]);
}

proof fn lemma_insert_in_order(v: Seq<(Seq<char>, Seq<char>)>, at: int, item: (Seq<char>, Seq<char>))
    requires
        in_order(v),
        at == place_of(v, item.0),
    ensures
        in_order(v.insert(at, item)),
{
    let now = v.insert(at, item);
    lemma_place_of(v, item.0);
    let x = lower_all(item.0);
    assert forall|i: int, j: int| 0 <= i < j < now.len() implies !text_less(
        lower_all((#[trigger] now[j]).0),
        lower_all((#[trigger] now[i]).0),
    ) by {
        if i == at {
            assert(now[j] == v[j - 1]);
            assert(text_less(x, lower_all(v[j - 1].0)));
            lemma_text_less_total(x, lower_all(v[j - 1].0));
        } else if j == at {
            assert(now[i] == v[i]);
            let last = lower_all(v[at - 1].0);
            assert(!text_less(x, last));
            if i < at - 1 {
                assert(!text_less(last, lower_all(v[i].0)));
                if text_less(x, lower_all(v[i].0)) {
                    lemma_text_less_total(last, lower_all(v[i].0));
                    lemma_text_less_total(x, last);
                    if text_less(last, x) {
                        lemma_text_less_transitive(last, x, lower_all(v[i].0));
                    }
                }
            }
        } else {
            let a = if i < at {
                i
            } else {
                i - 1
            };
            let b = if j < at {
                j
            } else {
                j - 1
            };
            assert(now[i] == v[a] && now[j] == v[b]);
        }
    }
}

// ── The dropdowns ────────────────────────────────────────────────────────

/// A path as it is compared: either slash, any case.
pub open spec fn comparable(s: Seq<char>) -> Seq<char> {
    lower_all(replace_char(trim(s), '\\', '/'))
}

/// Two spellings of a path.
pub open spec fn same_path(a: Seq<char>, b: Seq<char>) -> bool {
    comparable(a) == comparable(b)
}

fn compared(s: &str) -> (r: Vec<char>)
    ensures
        r@ == comparable(s@),
{
    let t = trim_str(s);
    let slashed = replaced_char(t.as_str(), '\\', '/');
    let c = to_chars(slashed.as_str());
    to_lower_all(c.as_slice())
}

/// The first value that is a spelling of a path, or -1.
pub open spec fn path_at(values: Seq<Seq<char>>, path: Seq<char>) -> int
    decreases values.len(),
{
    if values.len() == 0 {
        -1
    } else if path_at(values.drop_last(), path) >= 0 {
        path_at(values.drop_last(), path)
    } else if same_path(values.last(), path) {
        values.len() - 1
    } else {
        -1
    }
}

proof fn lemma_path_at(values: Seq<Seq<char>>, path: Seq<char>)
    ensures
        -1 <= path_at(values, path) < values.len(),
        path_at(values, path) >= 0 ==> same_path(values[path_at(values, path)], path),
    decreases values.len(),
{
    if values.len() > 0 {
        lemma_path_at(values.drop_last(), path);
    }
}

proof fn lemma_path_at_prefix(values: Seq<Seq<char>>, path: Seq<char>, n: int)
    requires
        0 <= n <= values.len(),
        path_at(values.take(n), path) >= 0,
    ensures
        path_at(values, path) == path_at(values.take(n), path),
    decreases values.len() - n,
{
    if n == values.len() {
        assert(values.take(n) =~= values);
    } else {
        assert(values.take(n + 1).drop_last() =~= values.take(n));
        lemma_path_at_prefix(values, path, n + 1);
    }
}

fn find_path(values: &Vec<String>, path: &str) -> (r: Option<usize>)
    ensures
        match r {
            Some(i) => i == path_at(strs(values@), path@) && i < values@.len(),
            None => path_at(strs(values@), path@) == -1,
        },
{
    let ghost vs = strs(values@);
    let want = compared(path);
    let mut i: usize = 0;
    while i < values.len()
        invariant
            i <= values.len(),
            vs == strs(values@),
            want@ == comparable(path@),
            path_at(vs.take(i as int), path@) < 0,
        decreases values.len() - i,
    {
        proof {
            assert(vs.take(i + 1).drop_last() =~= vs.take(i as int));
            assert(vs.take(i + 1).last() == values@[i as int]@);
        }
        let got = compared(values[i].as_str());
        if same(got.as_slice(), want.as_slice()) {
            proof {
                lemma_path_at_prefix(vs, path@, i + 1);
            }
            return Some(i);
        }
        i += 1;
    }
    assert(vs.take(values@.len() as int) =~= vs);
    proof {
        lemma_path_at(vs, path@);
    }
    None
}

/// The label of a path that no scan found.
pub open spec fn custom_label(path: Seq<char>) -> Seq<char> {
    "(custom) "@ + match name_in(path) {
        Some(n) => n,
        None => path,
    }
}

fn label_of_custom(path: &str) -> (r: String)
    ensures
        r@ == custom_label(path@),
{
    let mut out: String = "(custom) ".to_owned();
    match file_name(path) {
        Some(n) => {
            out.append(n.as_str());
        },
        None => {
            out.append(path);
        },
    }
    out
}

/// The rows before the current value is looked for.
pub open spec fn plain_rows(category: Category, scanned: Seq<(Seq<char>, Seq<char>)>) -> Seq<
    (Seq<char>, Seq<char>),
> {
    if category.optional() {
        seq![("(none)"@, Seq::<char>::empty())] + scanned
    } else {
        scanned
    }
}

pub open spec fn firsts(v: Seq<(Seq<char>, Seq<char>)>) -> Seq<Seq<char>> {
    v.map_values(|p: (Seq<char>, Seq<char>)| p.0)
}

pub open spec fn seconds(v: Seq<(Seq<char>, Seq<char>)>) -> Seq<Seq<char>> {
    v.map_values(|p: (Seq<char>, Seq<char>)| p.1)
}

/// How many rows stand before the files.
pub open spec fn fixed_rows(category: Category) -> int {
    if category.optional() {
        1
    } else {
        0
    }
}

/// The rows of a dropdown, and the one that is selected: the empty row or none for
/// no value, the row that spells the current path, or a row made for it.
pub open spec fn option_rows(
    category: Category,
    scanned: Seq<(Seq<char>, Seq<char>)>,
    current: Seq<char>,
) -> (Seq<(Seq<char>, Seq<char>)>, int) {
    let plain = plain_rows(category, scanned);
    let path = trim(current);
    if path.len() == 0 {
        (plain, fixed_rows(category) - 1)
    } else if path_at(seconds(plain), path) >= 0 {
        (plain, path_at(seconds(plain), path))
    } else {
        (plain.insert(fixed_rows(category), (custom_label(path), path)), fixed_rows(category))
    }
}

/// The rows of a dropdown, as labels and values, and the index of the one that is
/// selected.
pub fn build_options(category: Category, scanned: Vec<FileOption>, current: &str) -> (r: (
    Vec<String>,
    Vec<String>,
    i32,
))
    requires
        scanned@.len() < i32::MAX - 1,
    ensures
        strs(r.0@) == firsts(option_rows(category, files(scanned@), current@).0),
        strs(r.1@) == seconds(option_rows(category, files(scanned@), current@).0),
        r.2 == option_rows(category, files(scanned@), current@).1,
{
    let ghost plain = plain_rows(category, files(scanned@));
    let mut labels: Vec<String> = Vec::new();
    let mut values: Vec<String> = Vec::new();
    let optional: bool = category.is_optional();
    if optional {
        labels.push("(none)".to_owned());
        values.push(String::new());
    }
    let ghost head = if category.optional() {
        seq![("(none)"@, Seq::<char>::empty())]
    } else {
        Seq::empty()
    };
    assert(plain =~= head + files(scanned@));
    assert(strs(labels@) =~= firsts(head));
    assert(strs(values@) =~= seconds(head));
    let mut i: usize = 0;
    assert(files(scanned@).take(0) =~= Seq::<(Seq<char>, Seq<char>)>::empty());
    assert(head + files(scanned@).take(0) =~= head);
    while i < scanned.len()
        invariant
            i <= scanned@.len(),
            scanned@.len() < i32::MAX - 1,
            head.len() <= 1,
            labels@.len() == head.len() + i,
            values@.len() == head.len() + i,
            strs(labels@) == firsts(head + files(scanned@).take(i as int)),
            strs(values@) == seconds(head + files(scanned@).take(i as int)),
        decreases scanned.len() - i,
    {
        let ghost l = labels@;
        let ghost v = values@;
        labels.push(scanned[i].label.clone());
        values.push(scanned[i].path.clone());
        proof {
            let now = head + files(scanned@).take(i + 1);
            assert(now =~= (head + files(scanned@).take(i as int)).push(file_view(scanned@[i as int])));
            assert(strs(labels@) =~= strs(l).push(scanned@[i as int].label@));
            assert(strs(values@) =~= strs(v).push(scanned@[i as int].path@));
            assert(firsts(now) =~= strs(labels@));
            assert(seconds(now) =~= strs(values@));
        }
        i += 1;
    }
    assert(files(scanned@).take(scanned@.len() as int) =~= files(scanned@));
    assert(strs(labels@) =~= firsts(plain));
    assert(strs(values@) =~= seconds(plain));
    let path = trim_str(current);
    if path.as_str().is_empty() {
        return (
            labels,
            values,
            if optional {
                0
            } else {
                -1
            },
        );
    }
    if let Some(at) = find_path(&values, path.as_str()) {
        return (labels, values, at as i32);
    }
    let at: usize = if optional {
        1
    } else {
        0
    };
    let label = label_of_custom(path.as_str());
    let ghost l = labels@;
    let ghost v = values@;
    let ghost row = (label@, path@);
    labels.insert(at, label);
    values.insert(at, path);
    proof {
        assert(strs(labels@) =~= strs(l).insert(at as int, row.0));
        assert(strs(values@) =~= strs(v).insert(at as int, row.1));
        assert(firsts(plain.insert(at as int, row)) =~= firsts(plain).insert(at as int, row.0));
        assert(seconds(plain.insert(at as int, row)) =~= seconds(plain).insert(at as int, row.1));
    }
    (labels, values, at as i32)
}

/// A value that is there never disappears: the selected row spells it.
pub proof fn law_current_is_selected(
    category: Category,
    scanned: Seq<(Seq<char>, Seq<char>)>,
    current: Seq<char>,
)
    requires
        trim(current).len() > 0,
    ensures
        ({
            let (rows, at) = option_rows(category, scanned, current);
            0 <= at < rows.len() && same_path(rows[at].1, trim(current))
        }),
{
    let plain = plain_rows(category, scanned);
    lemma_path_at(seconds(plain), trim(current));
    let at = path_at(seconds(plain), trim(current));
    if at >= 0 {
        assert(seconds(plain)[at] == plain[at].1);
    }
}

/// A row of the dropdown of drafts: what it is called, the path, and the kind of
/// speculation that goes with it.
pub struct DraftRow {
    pub label: Seq<char>,
    pub path: Seq<char>,
    pub kind: Seq<char>,
}

pub open spec fn draft_labels(v: Seq<DraftRow>) -> Seq<Seq<char>> {
    v.map_values(|r: DraftRow| r.label)
}

pub open spec fn draft_paths(v: Seq<DraftRow>) -> Seq<Seq<char>> {
    v.map_values(|r: DraftRow| r.path)
}

pub open spec fn draft_kinds(v: Seq<DraftRow>) -> Seq<Seq<char>> {
    v.map_values(|r: DraftRow| r.kind)
}

/// The rows of the heads, then of the drafters, behind the empty row.
pub open spec fn plain_drafts(
    mtp: Seq<(Seq<char>, Seq<char>)>,
    dflash: Seq<(Seq<char>, Seq<char>)>,
) -> Seq<DraftRow> {
    seq![DraftRow { label: "(none)"@, path: Seq::empty(), kind: "none"@ }] + mtp.map_values(
        |f: (Seq<char>, Seq<char>)|
            DraftRow { label: "MTP: "@ + f.0, path: f.1, kind: "draft-mtp"@ },
    ) + dflash.map_values(
        |f: (Seq<char>, Seq<char>)|
            DraftRow { label: "DFlash: "@ + f.0, path: f.1, kind: "draft-dflash"@ },
    )
}

/// The rows of the dropdown of drafts, and the one that is selected. A path that no
/// scan found keeps a row, and its kind with it.
pub open spec fn draft_rows(
    mtp: Seq<(Seq<char>, Seq<char>)>,
    dflash: Seq<(Seq<char>, Seq<char>)>,
    current: Seq<char>,
    current_kind: Seq<char>,
) -> (Seq<DraftRow>, int) {
    let plain = plain_drafts(mtp, dflash);
    let path = trim(current);
    if path.len() == 0 {
        (plain, 0)
    } else if path_at(draft_paths(plain), path) >= 0 {
        (plain, path_at(draft_paths(plain), path))
    } else {
        (
            plain.insert(
                1,
                DraftRow {
                    label: custom_label(path),
                    path,
                    kind: if trim(current_kind).len() == 0 {
                        "none"@
                    } else {
                        trim(current_kind)
                    },
                },
            ),
            1,
        )
    }
}

fn add_drafts(
    labels: &mut Vec<String>,
    values: &mut Vec<String>,
    kinds: &mut Vec<String>,
    list: &Vec<FileOption>,
    prefix: &str,
    kind: &str,
    Ghost(head): Ghost<Seq<DraftRow>>,
)
    requires
        strs(old(labels)@) == draft_labels(head),
        strs(old(values)@) == draft_paths(head),
        strs(old(kinds)@) == draft_kinds(head),
    ensures
        ({
            let all = head + files(list@).map_values(
                |f: (Seq<char>, Seq<char>)|
                    DraftRow { label: prefix@ + f.0, path: f.1, kind: kind@ },
            );
            &&& strs(final(labels)@) == draft_labels(all)
            &&& strs(final(values)@) == draft_paths(all)
            &&& strs(final(kinds)@) == draft_kinds(all)
        }),
{
    let ghost tail = files(list@).map_values(
        |f: (Seq<char>, Seq<char>)| DraftRow { label: prefix@ + f.0, path: f.1, kind: kind@ },
    );
    let mut i: usize = 0;
    assert(head + tail.take(0) =~= head);
    while i < list.len()
        invariant
            i <= list.len(),
            tail == files(list@).map_values(
                |f: (Seq<char>, Seq<char>)|
                    DraftRow { label: prefix@ + f.0, path: f.1, kind: kind@ },
            ),
            strs(labels@) == draft_labels(head + tail.take(i as int)),
            strs(values@) == draft_paths(head + tail.take(i as int)),
            strs(kinds@) == draft_kinds(head + tail.take(i as int)),
        decreases list.len() - i,
    {
        let ghost l = labels@;
        let ghost v = values@;
        let ghost k = kinds@;
        let mut label: String = prefix.to_owned();
        label.append(list[i].label.as_str());
        let ghost text = label@;
        labels.push(label);
        values.push(list[i].path.clone());
        kinds.push(kind.to_owned());
        proof {
            let row = tail[i as int];
            assert(files(list@)[i as int] == file_view(list@[i as int]));
            assert(row.label == text && row.path == list@[i as int].path@ && row.kind == kind@);
            let now = head + tail.take(i + 1);
            assert(now =~= (head + tail.take(i as int)).push(row));
            assert(strs(labels@) =~= strs(l).push(row.label));
            assert(strs(values@) =~= strs(v).push(row.path));
            assert(strs(kinds@) =~= strs(k).push(row.kind));
            assert(draft_labels(now) =~= strs(labels@));
            assert(draft_paths(now) =~= strs(values@));
            assert(draft_kinds(now) =~= strs(kinds@));
        }
        i += 1;
    }
    assert(tail.take(list@.len() as int) =~= tail);
}

/// The rows of the dropdown of drafts, as labels, values and kinds of speculation,
/// and the index of the one that is selected.
pub fn build_draft_options(mtp: Vec<FileOption>, dflash: Vec<FileOption>, current: &str, current_spec: &str) -> (r: (
    Vec<String>,
    Vec<String>,
    Vec<String>,
    i32,
))
    requires
        mtp@.len() + dflash@.len() < i32::MAX - 1,
    ensures
        ({
            let (rows, at) = draft_rows(files(mtp@), files(dflash@), current@, current_spec@);
            &&& strs(r.0@) == draft_labels(rows)
            &&& strs(r.1@) == draft_paths(rows)
            &&& strs(r.2@) == draft_kinds(rows)
            &&& r.3 == at
        }),
{
    let mut labels: Vec<String> = Vec::new();
    let mut values: Vec<String> = Vec::new();
    let mut kinds: Vec<String> = Vec::new();
    labels.push("(none)".to_owned());
    values.push(String::new());
    kinds.push("none".to_owned());
    let ghost none = seq![DraftRow { label: "(none)"@, path: Seq::empty(), kind: "none"@ }];
    assert(strs(labels@) =~= draft_labels(none));
    assert(strs(values@) =~= draft_paths(none));
    assert(strs(kinds@) =~= draft_kinds(none));
    add_drafts(&mut labels, &mut values, &mut kinds, &mtp, "MTP: ", "draft-mtp", Ghost(none));
    let ghost heads = none + files(mtp@).map_values(
        |f: (Seq<char>, Seq<char>)|
            DraftRow { label: "MTP: "@ + f.0, path: f.1, kind: "draft-mtp"@ },
    );
    add_drafts(
        &mut labels,
        &mut values,
        &mut kinds,
        &dflash,
        "DFlash: ",
        "draft-dflash",
        Ghost(heads),
    );
    let ghost plain = plain_drafts(files(mtp@), files(dflash@));
    assert(strs(values@) == draft_paths(plain));
    assert(strs(values@).len() == values@.len());
    assert(plain.len() == 1 + mtp@.len() + dflash@.len());
    let path = trim_str(current);
    if path.as_str().is_empty() {
        return (labels, values, kinds, 0);
    }
    if let Some(at) = find_path(&values, path.as_str()) {
        return (labels, values, kinds, at as i32);
    }
    let given = trim_str(current_spec);
    let kind = if given.as_str().is_empty() {
        "none".to_owned()
    } else {
        given
    };
    let label = label_of_custom(path.as_str());
    let ghost row = DraftRow { label: label@, path: path@, kind: kind@ };
    let ghost l = strs(labels@);
    let ghost v = strs(values@);
    let ghost k = strs(kinds@);
    assert(l.len() == labels@.len() && k.len() == kinds@.len());
    labels.insert(1, label);
    values.insert(1, path);
    kinds.insert(1, kind);
    proof {
        let rows = plain.insert(1, row);
        assert(strs(labels@) =~= l.insert(1, row.label));
        assert(strs(values@) =~= v.insert(1, row.path));
        assert(strs(kinds@) =~= k.insert(1, row.kind));
        assert(draft_labels(rows) =~= draft_labels(plain).insert(1, row.label));
        assert(draft_paths(rows) =~= draft_paths(plain).insert(1, row.path));
        assert(draft_kinds(rows) =~= draft_kinds(plain).insert(1, row.kind));
    }
    (labels, values, kinds, 1)
}

/// A draft that is there never disappears: the selected row spells it.
pub proof fn law_current_draft_is_selected(
    mtp: Seq<(Seq<char>, Seq<char>)>,
    dflash: Seq<(Seq<char>, Seq<char>)>,
    current: Seq<char>,
    kind: Seq<char>,
)
    requires
        trim(current).len() > 0,
    ensures
        ({
            let (rows, at) = draft_rows(mtp, dflash, current, kind);
            0 <= at < rows.len() && same_path(rows[at].path, trim(current))
        }),
{
    let plain = plain_drafts(mtp, dflash);
    lemma_path_at(draft_paths(plain), trim(current));
    let at = path_at(draft_paths(plain), trim(current));
    if at >= 0 {
        assert(draft_paths(plain)[at] == plain[at].path);
    }
}

/// A dropdown offers every file, in the order of the list, behind the row for none where
/// a preset can do without one. A path that is no file's has a row of its own before
/// them, and no value selects the row for none.
pub proof fn law_dropdown_offers_every_file(
    category: Category,
    scanned: Seq<(Seq<char>, Seq<char>)>,
    current: Seq<char>,
)
    ensures
        ({
            let (rows, at) = option_rows(category, scanned, current);
            let none = category != Category::Model;
            let off = rows.len() - scanned.len();
            let path = trim(current);
            &&& off == (if none {
                1int
            } else {
                0
            }) || off == (if none {
                2int
            } else {
                1
            })
            &&& forall|k: int| 0 <= k < scanned.len() ==> #[trigger] rows[off + k] == scanned[k]
            &&& none ==> rows[0].0 == "(none)"@ && rows[0].1.len() == 0
            &&& path.len() == 0 ==> at == (if none {
                0int
            } else {
                -1
            }) && off == (if none {
                1int
            } else {
                0
            })
            &&& (exists|k: int|
                0 <= k < scanned.len() && #[trigger] is_spelled(scanned[k].1, path)) ==> off == (if none {
                1int
            } else {
                0
            })
        }),
{
    let plain = plain_rows(category, scanned);
    let path = trim(current);
    let (rows, at) = option_rows(category, scanned, current);
    let off = rows.len() - scanned.len();
    let fixed = fixed_rows(category);
    lemma_path_at(seconds(plain), path);
    assert forall|k: int| 0 <= k < scanned.len() implies #[trigger] rows[off + k] == scanned[k] by {
        assert(plain[fixed + k] == scanned[k]);
    }
    if exists|k: int| 0 <= k < scanned.len() && #[trigger] is_spelled(scanned[k].1, path) {
        let k = choose|k: int| 0 <= k < scanned.len() && #[trigger] is_spelled(scanned[k].1, path);
        assert(seconds(plain)[fixed + k] == scanned[k].1);
        lemma_path_is_found(seconds(plain), path, fixed + k);
    }
}

/// Whether two texts are spellings of one path: blanks around them, the slash and the
/// case of the letters aside.
pub open spec fn is_spelled(a: Seq<char>, b: Seq<char>) -> bool {
    let x = trim(a);
    let y = trim(b);
    &&& x.len() == y.len()
    &&& forall|i: int|
        0 <= i < x.len() ==> lower(#[trigger] x[i]) == lower(y[i]) || (x[i] == '/' && y[i] == '\\') || (x[i]
            == '\\' && y[i] == '/')
}

proof fn lemma_spelled_is_same(a: Seq<char>, b: Seq<char>)
    requires
        is_spelled(a, b),
    ensures
        same_path(a, b),
{
    let x = trim(a);
    let y = trim(b);
    let p = comparable(a);
    let q = comparable(b);
    assert(p.len() == q.len());
    assert forall|i: int| 0 <= i < p.len() implies p[i] == q[i] by {
        let c = x[i];
        let d = y[i];
        assert(lower(c) == lower(d) || (c == '/' && d == '\\') || (c == '\\' && d == '/'));
        assert(lower('/') == '/' && lower('\\') == '\\');
        assert(c == '\\' ==> lower(c) == '\\');
        assert(lower(c) == '\\' ==> c == '\\');
        assert(lower(d) == '\\' ==> d == '\\');
    }
    assert(p =~= q);
}

proof fn lemma_path_is_found(values: Seq<Seq<char>>, path: Seq<char>, k: int)
    requires
        0 <= k < values.len(),
        is_spelled(values[k], path),
    ensures
        path_at(values, path) >= 0,
    decreases values.len(),
{
    let init = values.drop_last();
    if k < init.len() {
        assert(init[k] == values[k]);
        lemma_path_is_found(init, path, k);
    } else {
        lemma_spelled_is_same(values[k], path);
    }
}

/// The dropdown of drafts offers every head and every drafter with the kind of
/// speculation that goes with it, behind the row for none.
pub proof fn law_draft_dropdown_offers_every_file(
    mtp: Seq<(Seq<char>, Seq<char>)>,
    dflash: Seq<(Seq<char>, Seq<char>)>,
    current: Seq<char>,
    kind: Seq<char>,
)
    ensures
        ({
            let (rows, at) = draft_rows(mtp, dflash, current, kind);
            let off = rows.len() - mtp.len() - dflash.len();
            &&& off == 1 || off == 2
            &&& rows[0].path.len() == 0 && rows[0].kind == "none"@
            &&& forall|k: int|
                0 <= k < mtp.len() ==> (#[trigger] rows[off + k]).path == mtp[k].1 && rows[off + k].kind
                    == "draft-mtp"@ && rows[off + k].label == "MTP: "@ + mtp[k].0
            &&& forall|k: int|
                0 <= k < dflash.len() ==> (#[trigger] rows[off + mtp.len() + k]).path == dflash[k].1 && rows[off
                    + mtp.len() + k].kind == "draft-dflash"@ && rows[off + mtp.len() + k].label
                    == "DFlash: "@ + dflash[k].0
            &&& trim(current).len() == 0 ==> off == 1 && at == 0
        }),
{
    let plain = plain_drafts(mtp, dflash);
    let (rows, at) = draft_rows(mtp, dflash, current, kind);
    let off = rows.len() - mtp.len() - dflash.len();
    assert(plain.len() == 1 + mtp.len() + dflash.len());
    assert forall|k: int| 0 <= k < mtp.len() implies (#[trigger] rows[off + k]).path == mtp[k].1
        && rows[off + k].kind == "draft-mtp"@ && rows[off + k].label == "MTP: "@ + mtp[k].0 by {
        assert(rows[off + k] == plain[1 + k]);
    }
    assert forall|k: int| 0 <= k < dflash.len() implies (#[trigger] rows[off + mtp.len() + k]).path
        == dflash[k].1 && rows[off + mtp.len() + k].kind == "draft-dflash"@ && rows[off + mtp.len() + k].label
        == "DFlash: "@ + dflash[k].0 by {
        assert(rows[off + mtp.len() + k] == plain[1 + mtp.len() + k]);
    }
    assert(rows[0] == plain[0]);
}

/// A draft that is no file of the lists keeps its path and the kind that it had, in the
/// row behind the first.
pub proof fn law_custom_draft_keeps_its_kind(
    mtp: Seq<(Seq<char>, Seq<char>)>,
    dflash: Seq<(Seq<char>, Seq<char>)>,
    current: Seq<char>,
    kind: Seq<char>,
)
    requires
        draft_rows(mtp, dflash, current, kind).0.len() == mtp.len() + dflash.len() + 2,
    ensures
        ({
            let (rows, at) = draft_rows(mtp, dflash, current, kind);
            &&& at == 1
            &&& rows[1].path == trim(current)
            &&& trim(kind).len() > 0 ==> rows[1].kind == trim(kind)
            &&& trim(kind).len() == 0 ==> rows[1].kind == "none"@
        }),
{
}

} // verus!
