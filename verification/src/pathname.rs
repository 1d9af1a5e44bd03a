//! Paths as text, with Windows' rules: both slashes separate, a drive or a share
//! may stand in front.
use vstd::prelude::*;
use vstd::slice::slice_subrange;
use vstd::string::*;
use crate::text::{from_chars, has_prefix, is_ascii_letter, is_str, opt, starts_with, to_chars};

verus! {

pub open spec fn is_separator(c: char) -> bool {
    c == '/' || c == '\\'
}

/// The first separator at or behind a place, or the length.
pub open spec fn separator_from(s: Seq<char>, from: int) -> int
    decreases s.len() - from,
{
    if from < 0 || from >= s.len() {
        s.len() as int
    } else if is_separator(s[from]) {
        from
    } else {
        separator_from(s, from + 1)
    }
}

/// How much of a path is the name of a share, `\\server\share`: both parts must be
/// there.
pub open spec fn share_len(s: Seq<char>) -> int {
    if s.len() > 2 && is_separator(s[0]) && is_separator(s[1]) {
        let server = separator_from(s, 2);
        let share = separator_from(s, server + 1);
        if server > 2 && share > server + 1 {
            share
        } else {
            0
        }
    } else {
        0
    }
}

/// How much of a path is its drive or share.
pub open spec fn prefix_len(s: Seq<char>) -> int {
    if s.len() >= 2 && is_ascii_letter(s[0]) && s[1] == ':' {
        2
    } else {
        share_len(s)
    }
}

/// The last separator, or -1.
pub open spec fn last_separator(s: Seq<char>) -> int
    decreases s.len(),
{
    if s.len() == 0 {
        -1
    } else if is_separator(s.last()) {
        s.len() - 1
    } else {
        last_separator(s.drop_last())
    }
}

/// The last name of a path that has no prefix. Empty parts and `.` behind a name
/// count for nothing; a path that ends in `..` has no name.
pub open spec fn last_name(s: Seq<char>) -> Option<Seq<char>>
    decreases s.len(),
{
    let i = last_separator(s);
    let tail = s.skip(i + 1);
    if i >= 0 && i < s.len() && (tail.len() == 0 || tail == "."@) {
        last_name(s.take(i))
    } else if tail.len() == 0 || tail == "."@ || tail == ".."@ {
        None
    } else {
        Some(tail)
    }
}

/// The last name of a path, or none where it has none.
pub open spec fn name_in(s: Seq<char>) -> Option<Seq<char>> {
    last_name(s.skip(prefix_len(s)))
}

fn separator(c: char) -> (r: bool)
    ensures
        r == is_separator(c),
{
    c == '/' || c == '\\'
}

proof fn lemma_separator_from(s: Seq<char>, from: int)
    requires
        0 <= from,
    ensures
        separator_from(s, from) <= s.len(),
        from <= s.len() ==> separator_from(s, from) >= from,
    decreases s.len() - from,
{
    if from < s.len() && !is_separator(s[from]) {
        lemma_separator_from(s, from + 1);
    }
}

fn find_separator(c: &[char], from: usize) -> (r: usize)
    requires
        from <= c@.len(),
    ensures
        r == separator_from(c@, from as int),
        from <= r <= c@.len(),
{
    let mut i: usize = from;
    while i < c.len() && !separator(c[i])
        invariant
            from <= i <= c@.len(),
            separator_from(c@, from as int) == separator_from(c@, i as int),
        decreases c.len() - i,
    {
        i += 1;
    }
    proof {
        lemma_separator_from(c@, from as int);
    }
    i
}

fn share_end(c: &[char]) -> (r: usize)
    ensures
        r == share_len(c@),
        r <= c@.len(),
{
    let n: usize = c.len();
    if n > 2 && separator(c[0]) && separator(c[1]) {
        let server: usize = find_separator(c, 2);
        if server > 2 && server < n {
            let share: usize = find_separator(c, server + 1);
            if share > server + 1 {
                return share;
            }
        }
    }
    0
}

fn prefix_end(c: &[char]) -> (r: usize)
    ensures
        r == prefix_len(c@),
        r <= c@.len(),
{
    if c.len() >= 2 && (('a' <= c[0] && c[0] <= 'z') || ('A' <= c[0] && c[0] <= 'Z')) && c[1] == ':' {
        return 2;
    }
    share_end(c)
}

proof fn lemma_last_separator_is(s: Seq<char>, i: int)
    requires
        0 <= i < s.len(),
        is_separator(s[i]),
        forall|k: int| i < k < s.len() ==> !is_separator(#[trigger] s[k]),
    ensures
        last_separator(s) == i,
    decreases s.len(),
{
    if i < s.len() - 1 {
        let init = s.drop_last();
        assert(!is_separator(s[s.len() - 1]));
        assert forall|k: int| i < k < init.len() implies !is_separator(#[trigger] init[k]) by {
            assert(init[k] == s[k]);
        }
        lemma_last_separator_is(init, i);
    }
}

proof fn lemma_last_separator_none(s: Seq<char>)
    requires
        forall|k: int| 0 <= k < s.len() ==> !is_separator(#[trigger] s[k]),
    ensures
        last_separator(s) == -1,
    decreases s.len(),
{
    if s.len() > 0 {
        let init = s.drop_last();
        assert(!is_separator(s[s.len() - 1]));
        assert forall|k: int| 0 <= k < init.len() implies !is_separator(#[trigger] init[k]) by {
            assert(init[k] == s[k]);
        }
        lemma_last_separator_none(init);
    }
}

fn find_last_separator(c: &[char], end: usize) -> (r: Option<usize>)
    requires
        end <= c@.len(),
    ensures
        match r {
            Some(i) => i == last_separator(c@.take(end as int)) && i < end,
            None => last_separator(c@.take(end as int)) == -1,
        },
{
    let ghost s = c@.take(end as int);
    let mut i: usize = end;
    while i > 0
        invariant
            i <= end <= c@.len(),
            s == c@.take(end as int),
            forall|k: int| i <= k < end ==> !is_separator(#[trigger] s[k]),
        decreases i,
    {
        i -= 1;
        assert(s[i as int] == c@[i as int]);
        if separator(c[i]) {
            proof {
                lemma_last_separator_is(s, i as int);
            }
            return Some(i);
        }
    }
    proof {
        lemma_last_separator_none(s);
    }
    None
}

fn last_name_of(c: &[char]) -> (r: Option<String>)
    ensures
        opt(r) == last_name(c@),
{
    let mut end: usize = c.len();
    assert(c@.take(end as int) =~= c@);
    loop
        invariant
            end <= c@.len(),
            last_name(c@) == last_name(c@.take(end as int)),
        decreases end,
    {
        let ghost s = c@.take(end as int);
        match find_last_separator(c, end) {
            Some(i) => {
                let tail = slice_subrange(c, i + 1, end);
                assert(tail@ =~= s.skip(i + 1));
                assert(s.take(i as int) =~= c@.take(i as int));
                if tail.len() == 0 || is_str(tail, ".") {
                    end = i;
                    continue ;
                }
                if is_str(tail, "..") {
                    return None;
                }
                return Some(from_chars(tail));
            },
            None => {
                let tail = slice_subrange(c, 0, end);
                assert(tail@ =~= s.skip(0));
                if tail.len() == 0 || is_str(tail, ".") || is_str(tail, "..") {
                    return None;
                }
                return Some(from_chars(tail));
            },
        }
    }
}

/// The last name of a path.
pub fn file_name(path: &str) -> (r: Option<String>)
    ensures
        opt(r) == name_in(path@),
{
    let c = to_chars(path);
    let n: usize = c.len();
    let p: usize = prefix_end(c.as_slice());
    let rest = slice_subrange(c.as_slice(), p, n);
    assert(rest@ =~= path@.skip(prefix_len(path@)));
    last_name_of(rest)
}

/// A path without the extended-length prefix `\\?\`, which some shells refuse. One
/// of a share keeps it: there it stands for more than itself.
pub open spec fn without_extended(s: Seq<char>) -> Seq<char> {
    let mark = "\\\\?\\"@;
    let rest = s.skip(mark.len() as int);
    if starts_with(s, mark) && !starts_with(rest, "UNC"@) {
        rest
    } else {
        s
    }
}

/// A path without the extended-length prefix.
pub fn strip_extended_prefix(path: &str) -> (r: String)
    ensures
        r@ == without_extended(path@),
{
    let c = to_chars(path);
    let mark = to_chars("\\\\?\\");
    if has_prefix(c.as_slice(), "\\\\?\\") {
        let rest = slice_subrange(c.as_slice(), mark.len(), c.len());
        assert(rest@ =~= path@.skip(mark@.len() as int));
        if !has_prefix(rest, "UNC") {
            return from_chars(rest);
        }
    }
    path.to_owned()
}

/// A part of a path.
#[derive(Debug, Clone, PartialEq, Eq)]
pub enum Part {
    /// A drive, a share or the root: what nothing climbs out of.
    Root(String),
    /// `..`
    Parent,
    /// `.`
    Current,
    Name(String),
}

/// A part as text.
pub enum PartView {
    Root(Seq<char>),
    Parent,
    Current,
    Name(Seq<char>),
}

impl View for Part {
    type V = PartView;

    open spec fn view(&self) -> PartView {
        match self {
            Part::Root(s) => PartView::Root(s@),
            Part::Parent => PartView::Parent,
            Part::Current => PartView::Current,
            Part::Name(s) => PartView::Name(s@),
        }
    }
}

pub open spec fn parts_view(v: Seq<Part>) -> Seq<PartView> {
    v.map_values(|p: Part| p@)
}

/// The parts that are left once every `..` has taken the name before it and every
/// `.` is gone.
pub open spec fn resolved(v: Seq<PartView>) -> Seq<PartView>
    decreases v.len(),
{
    if v.len() == 0 {
        Seq::empty()
    } else {
        let before = resolved(v.drop_last());
        match v.last() {
            PartView::Parent => if before.len() > 0 && before.last() is Name {
                before.drop_last()
            } else {
                before
            },
            PartView::Current => before,
            p => before.push(p),
        }
    }
}

/// Resolves the parts of a path, without asking the file system.
pub fn normalize(parts: Vec<Part>) -> (r: Vec<Part>)
    ensures
        parts_view(r@) == resolved(parts_view(parts@)),
        forall|i: int| 0 <= i < r@.len() ==> (#[trigger] r@[i]) is Root || r@[i] is Name,
{
    let ghost all = parts_view(parts@);
    let mut out: Vec<Part> = Vec::new();
    let mut i: usize = 0;
    assert(all.take(0) =~= Seq::<PartView>::empty());
    assert(parts_view(out@) =~= resolved(all.take(0)));
    while i < parts.len()
        invariant
            i <= parts@.len(),
            all == parts_view(parts@),
            parts_view(out@) == resolved(all.take(i as int)),
            forall|k: int| 0 <= k < out@.len() ==> (#[trigger] out@[k]) is Root || out@[k] is Name,
        decreases parts.len() - i,
    {
        let ghost before = out@;
        proof {
            assert(all.take(i + 1).drop_last() =~= all.take(i as int));
            assert(all.take(i + 1).last() == parts@[i as int]@);
            assert(parts_view(before).len() == before.len());
            if before.len() > 0 {
                assert(parts_view(before).last() == before.last()@);
            }
        }
        match &parts[i] {
            Part::Parent => {
                let n: usize = out.len();
                if n > 0 {
                    let name: bool = match &out[n - 1] {
                        Part::Name(_) => true,
                        _ => false,
                    };
                    if name {
                        let _ = out.pop();
                        assert(parts_view(out@) =~= parts_view(before).drop_last());
                    }
                }
            },
            Part::Current => {},
            Part::Root(s) => {
                out.push(Part::Root(s.clone()));
                assert(parts_view(out@) =~= parts_view(before).push(PartView::Root(s@)));
            },
            Part::Name(s) => {
                out.push(Part::Name(s.clone()));
                assert(parts_view(out@) =~= parts_view(before).push(PartView::Name(s@)));
            },
        }
        i += 1;
    }
    assert(all.take(parts@.len() as int) =~= all);
    out
}

// ── Laws ─────────────────────────────────────────────────────────────────

/// Whether a text is a name of its own: no separator in it, and neither empty nor dots
/// that stand for a directory.
pub open spec fn is_name(s: Seq<char>) -> bool {
    &&& s.len() > 0
    &&& s != "."@
    &&& s != ".."@
    &&& forall|i: int| 0 <= i < s.len() ==> #[trigger] s[i] != '/' && s[i] != '\\'
}

proof fn lemma_last_separator(s: Seq<char>, at: int)
    requires
        0 <= at < s.len(),
        is_separator(s[at]),
        forall|k: int| at < k < s.len() ==> !is_separator(#[trigger] s[k]),
    ensures
        last_separator(s) == at,
    decreases s.len(),
{
    if at < s.len() - 1 {
        let init = s.drop_last();
        assert(s.last() == s[s.len() - 1]);
        assert forall|k: int| at < k < init.len() implies !is_separator(#[trigger] init[k]) by {
            assert(init[k] == s[k]);
        }
        lemma_last_separator(init, at);
    }
}

proof fn lemma_no_separator(s: Seq<char>)
    requires
        forall|k: int| 0 <= k < s.len() ==> !is_separator(#[trigger] s[k]),
    ensures
        last_separator(s) == -1,
    decreases s.len(),
{
    if s.len() > 0 {
        let init = s.drop_last();
        assert(s.last() == s[s.len() - 1]);
        assert forall|k: int| 0 <= k < init.len() implies !is_separator(#[trigger] init[k]) by {
            assert(init[k] == s[k]);
        }
        lemma_no_separator(init);
    }
}

/// The name of a file under a directory of a drive is the name that was put there,
/// whatever the directory and the separator, and separators behind it change nothing.
pub proof fn law_name_on_a_drive(drive: char, dir: Seq<char>, sep: char, name: Seq<char>)
    requires
        is_ascii_letter(drive),
        sep == '/' || sep == '\\',
        is_name(name),
    ensures
        name_in(seq![drive, ':'] + dir + seq![sep] + name) == Some(name),
        name_in(seq![drive, ':'] + dir + seq![sep] + name + seq![sep]) == Some(name),
        name_in(seq![drive, ':'] + name) == Some(name),
{
    let p = seq![drive, ':'] + dir + seq![sep] + name;
    let s = dir + seq![sep] + name;
    assert(p.skip(2) =~= s);
    let at = dir.len() as int;
    assert forall|k: int| at < k < s.len() implies !is_separator(#[trigger] s[k]) by {
        assert(s[k] == name[k - at - 1]);
    }
    lemma_last_separator(s, at);
    assert(s.skip(at + 1) =~= name);
    assert(last_name(s) == Some(name));
    let q = p + seq![sep];
    let t = s + seq![sep];
    assert(q.skip(2) =~= t);
    lemma_last_separator(t, s.len() as int);
    assert(t.skip(s.len() as int + 1).len() == 0);
    assert(t.take(s.len() as int) =~= s);
    let r = seq![drive, ':'] + name;
    assert(r.skip(2) =~= name);
    lemma_no_separator(name);
    assert(name.skip(0) =~= name);
}

/// The extended-length prefix goes, unless a share is behind it; a path without it stays.
pub proof fn law_extended_prefix(p: Seq<char>)
    ensures
        !starts_with(p, "UNC"@) ==> without_extended("\\\\?\\"@ + p) == p,
        starts_with(p, "UNC"@) ==> without_extended("\\\\?\\"@ + p) == "\\\\?\\"@ + p,
        p.len() > 0 && p[0] != '\\' ==> without_extended(p) == p,
{
    reveal_strlit("\\\\?\\");
    let mark = "\\\\?\\"@;
    assert((mark + p).take(mark.len() as int) =~= mark);
    assert((mark + p).skip(mark.len() as int) =~= p);
    if p.len() > 0 && p[0] != '\\' && starts_with(p, mark) {
        assert(p.take(mark.len() as int)[0] == p[0]);
        assert(mark[0] == '\\');
    }
}

/// A name and the step back from it come to nothing, a step in place comes to nothing,
/// nothing climbs out of a root, and a path of names alone stays as it is.
pub proof fn law_steps_resolve(v: Seq<PartView>, name: Seq<char>, root: Seq<char>)
    ensures
        resolved(v.push(PartView::Name(name)).push(PartView::Parent)) == resolved(v),
        resolved(v.push(PartView::Current)) == resolved(v),
        resolved(v.push(PartView::Root(root)).push(PartView::Parent)) == resolved(v).push(
            PartView::Root(root),
        ),
        resolved(v.push(PartView::Name(name))) == resolved(v).push(PartView::Name(name)),
        (forall|i: int| 0 <= i < v.len() ==> (#[trigger] v[i]) is Root || v[i] is Name) ==> resolved(v)
            == v,
{
    let named = v.push(PartView::Name(name));
    assert(named.drop_last() =~= v);
    assert(named.push(PartView::Parent).drop_last() =~= named);
    let out = resolved(v).push(PartView::Name(name));
    assert(resolved(named) == out);
    assert(out.last() is Name && out.drop_last() =~= resolved(v));
    assert(named.push(PartView::Parent).last() == PartView::Parent);
    assert(v.push(PartView::Current).drop_last() =~= v);
    let rooted = v.push(PartView::Root(root));
    assert(rooted.drop_last() =~= v);
    assert(rooted.push(PartView::Parent).drop_last() =~= rooted);
    assert(rooted.push(PartView::Parent).last() == PartView::Parent);
    let kept = resolved(v).push(PartView::Root(root));
    assert(resolved(rooted) == kept);
    assert(!(kept.last() is Name));
    if forall|i: int| 0 <= i < v.len() ==> (#[trigger] v[i]) is Root || v[i] is Name {
        lemma_plain_parts(v);
    }
}

proof fn lemma_plain_parts(v: Seq<PartView>)
    requires
        forall|i: int| 0 <= i < v.len() ==> (#[trigger] v[i]) is Root || v[i] is Name,
    ensures
        resolved(v) == v,
    decreases v.len(),
{
    if v.len() > 0 {
        let init = v.drop_last();
        assert forall|i: int| 0 <= i < init.len() implies (#[trigger] init[i]) is Root || init[i] is Name by {
            assert(init[i] == v[i]);
        }
        lemma_plain_parts(init);
        assert(v[v.len() - 1] == v.last());
        assert(init.push(v.last()) =~= v);
    } else {
        assert(resolved(v) =~= v);
    }
}

} // verus!
