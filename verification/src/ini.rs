//! INI text: a reader, and writers that keep comments, order and line endings.
//!
//! What holds throughout:
//! - A section is found in any case of its name, and wherever the reader sees its
//!   header: indented, with spaces inside the brackets, with spaces behind them.
//! - A key is read in the exact case; [`replace_key`] finds one in any case and
//!   rewrites it in the case given.
//! - Values are trimmed, and end at the first `;` or `#`. There is no escape, so a
//!   value cannot hold either ([`reject_comment_markers`]).
//! - Writers keep the text's line endings; an empty text gets CRLF.
//!
//! Every function here works on the text of a file, not on the file.
use vstd::prelude::*;
use vstd::slice::slice_subrange;
use vstd::string::*;
use crate::text::{
    concat, contains, ends_line, find_char, from_chars, has_char, index_of, is_str,
    lemma_lines_incl_shape, lemma_trim_end_shape, lemma_trim_start_shape, lines_incl, lines_incl_of,
    lower_all, parse_signed, pieces, position, push_chars, push_pieces, read_int, replace_all,
    replaced_all, same_ignore_case, str_eq, to_chars, trim, trim_end, trim_start, trimmed,
    trimmed_end, trimmed_start,
};

verus! {

// ── Keys ─────────────────────────────────────────────────────────────────

/// The keys of a section with their values; no key stands twice.
#[derive(Debug)]
pub struct Keys {
    entries: Vec<(String, String)>,
}

impl Keys {
    /// No key stands twice.
    #[verifier::type_invariant]
    spec fn keys_differ(self) -> bool {
        distinct(self.entries@)
    }
}

spec fn distinct(v: Seq<(String, String)>) -> bool {
    forall|i: int, k: int| 0 <= i < k < v.len() ==> (#[trigger] v[i]).0@ != (#[trigger] v[k]).0@
}

spec fn map_of(v: Seq<(String, String)>) -> Map<Seq<char>, Seq<char>>
    decreases v.len(),
{
    if v.len() == 0 {
        Map::empty()
    } else {
        map_of(v.drop_last()).insert(v.last().0@, v.last().1@)
    }
}

impl View for Keys {
    type V = Map<Seq<char>, Seq<char>>;

    closed spec fn view(&self) -> Map<Seq<char>, Seq<char>> {
        map_of(self.entries@)
    }
}

proof fn lemma_map_of_remove(v: Seq<(String, String)>, i: int, value: Seq<char>)
    requires
        0 <= i < v.len(),
    ensures
        map_of(v.remove(i)).insert(v[i].0@, value) =~= map_of(v).insert(v[i].0@, value),
    decreases v.len(),
{
    let k = v[i].0@;
    if i == v.len() - 1 {
        assert(v.remove(i) =~= v.drop_last());
    } else {
        lemma_map_of_remove(v.drop_last(), i, value);
        assert(v.remove(i).drop_last() =~= v.drop_last().remove(i));
        assert(v.remove(i).last() == v.last());
        let a = map_of(v.drop_last().remove(i));
        let b = map_of(v.drop_last());
        let (lk, lv) = (v.last().0@, v.last().1@);
        let x = a.insert(lk, lv).insert(k, value);
        let y = b.insert(lk, lv).insert(k, value);
        assert(a.insert(k, value) == b.insert(k, value));
        assert forall|q: Seq<char>| x.dom().contains(q) == y.dom().contains(q) by {
            assert(a.insert(k, value).dom().contains(q) == b.insert(k, value).dom().contains(q));
        }
        assert forall|q: Seq<char>| x.dom().contains(q) implies x[q] == y[q] by {
            assert(a.insert(k, value)[q] == b.insert(k, value)[q]);
        }
        assert(x =~= y);
    }
}

/// A key that no entry has is not in the map of the entries.
proof fn lemma_map_of_absent(v: Seq<(String, String)>, key: Seq<char>)
    requires
        !map_of(v).dom().contains(key),
    ensures
        forall|j: int| 0 <= j < v.len() ==> (#[trigger] v[j]).0@ != key,
    decreases v.len(),
{
    if v.len() > 0 {
        let init = v.drop_last();
        lemma_map_of_absent(init, key);
        assert forall|j: int| 0 <= j < v.len() implies (#[trigger] v[j]).0@ != key by {
            if j < init.len() {
                assert(v[j] == init[j]);
            }
        }
    }
}

impl Keys {
    /// No keys.
    pub fn new() -> (r: Keys)
        ensures
            r@ == Map::<Seq<char>, Seq<char>>::empty(),
    {
        Keys { entries: Vec::new() }
    }

    fn index(&self, key: &str) -> (r: Option<usize>)
        ensures
            match r {
                Some(i) => i < self.entries@.len() && self.entries@[i as int].0@ == key@
                    && self@.dom().contains(key@) && self@[key@] == self.entries@[i as int].1@,
                None => !self@.dom().contains(key@),
            },
    {
        let mut i: usize = self.entries.len();
        let ghost all = self.entries@;
        assert(all.take(all.len() as int) =~= all);
        while i > 0
            invariant
                i <= all.len(),
                all == self.entries@,
                self@ == map_of(all),
                map_of(all).dom().contains(key@) == map_of(all.take(i as int)).dom().contains(key@),
                map_of(all).dom().contains(key@) ==> map_of(all)[key@] == map_of(
                    all.take(i as int),
                )[key@],
            decreases i,
        {
            proof {
                assert(all.take(i as int).drop_last() =~= all.take(i - 1));
                assert(all.take(i as int).last() == all[i - 1]);
            }
            i -= 1;
            if str_eq(self.entries[i].0.as_str(), key) {
                return Some(i);
            }
        }
        None
    }

    /// The value of a key.
    pub fn get(&self, key: &str) -> (r: Option<&str>)
        ensures
            match r {
                Some(v) => self@.dom().contains(key@) && v@ == self@[key@],
                None => !self@.dom().contains(key@),
            },
    {
        match self.index(key) {
            Some(i) => Some(self.entries[i].1.as_str()),
            None => None,
        }
    }

    /// Whether there is a value for a key.
    pub fn contains_key(&self, key: &str) -> (r: bool)
        ensures
            r == self@.dom().contains(key@),
    {
        self.index(key).is_some()
    }

    /// Sets the value of a key.
    pub fn insert(&mut self, key: String, value: String)
        ensures
            final(self)@ == old(self)@.insert(key@, value@),
    {
        proof {
            use_type_invariant(&*self);
        }
        let at = self.index(key.as_str());
        let mut v: Vec<(String, String)> = Vec::new();
        std::mem::swap(&mut v, &mut self.entries);
        let ghost before = v@;
        if let Some(i) = at {
            proof {
                lemma_map_of_remove(v@, i as int, value@);
            }
            v.remove(i);
            assert forall|j: int| 0 <= j < v@.len() implies (#[trigger] v@[j]).0@ != key@ by {
                if j < i {
                    assert(before[j].0@ != before[i as int].0@);
                } else {
                    assert(before[i as int].0@ != before[j + 1].0@);
                }
            }
        } else {
            proof {
                lemma_map_of_absent(v@, key@);
            }
        }
        let ghost rest = v@;
        assert(distinct(rest)) by {
            if let Some(i) = at {
                assert forall|j: int, k: int| 0 <= j < k < rest.len() implies (#[trigger] rest[j]).0@
                    != (#[trigger] rest[k]).0@ by {
                    let a = if j < i {
                        j
                    } else {
                        j + 1
                    };
                    let b = if k < i {
                        k
                    } else {
                        k + 1
                    };
                    assert(before[a].0@ != before[b].0@);
                }
            }
        }
        v.push((key, value));
        assert(v@.drop_last() =~= rest);
        self.entries = v;
    }
}

impl Clone for Keys {
    fn clone(&self) -> (r: Self)
        ensures
            r@ == self@,
    {
        proof {
            use_type_invariant(self);
        }
        let mut v: Vec<(String, String)> = Vec::new();
        let mut i: usize = 0;
        while i < self.entries.len()
            invariant
                i <= self.entries@.len(),
                v@.len() == i,
                forall|k: int|
                    0 <= k < i ==> (#[trigger] v@[k]).0@ == self.entries@[k].0@ && v@[k].1@
                        == self.entries@[k].1@,
            decreases self.entries.len() - i,
        {
            v.push((self.entries[i].0.clone(), self.entries[i].1.clone()));
            i += 1;
        }
        proof {
            lemma_map_of_texts(v@, self.entries@);
            assert forall|i: int, k: int| 0 <= i < k < v@.len() implies (#[trigger] v@[i]).0@ != (
            #[trigger] v@[k]).0@ by {
                assert(self.entries@[i].0@ != self.entries@[k].0@);
            }
        }
        Keys { entries: v }
    }
}

/// Entries of the same texts make the same map.
proof fn lemma_map_of_texts(a: Seq<(String, String)>, b: Seq<(String, String)>)
    requires
        a.len() == b.len(),
        forall|k: int| 0 <= k < a.len() ==> (#[trigger] a[k]).0@ == b[k].0@ && a[k].1@ == b[k].1@,
    ensures
        map_of(a) == map_of(b),
    decreases a.len(),
{
    if a.len() > 0 {
        assert forall|k: int| 0 <= k < a.len() - 1 implies (#[trigger] a.drop_last()[k]).0@
            == b.drop_last()[k].0@ && a.drop_last()[k].1@ == b.drop_last()[k].1@ by {
            assert(a[k].0@ == b[k].0@);
        }
        lemma_map_of_texts(a.drop_last(), b.drop_last());
        assert(a[a.len() - 1].0@ == b[a.len() - 1].0@);
    }
}

/// A section of a text: its name and its keys.
#[derive(Debug, Clone)]
pub struct Section {
    pub id: String,
    pub keys: Keys,
}

/// A section as text.
#[verifier::ext_equal]
pub struct SectionView {
    pub id: Seq<char>,
    pub keys: Map<Seq<char>, Seq<char>>,
}

impl View for Section {
    type V = SectionView;

    open spec fn view(&self) -> SectionView {
        SectionView { id: self.id@, keys: self.keys@ }
    }
}

pub open spec fn sections_view(v: Seq<Section>) -> Seq<SectionView> {
    v.map_values(|s: Section| s@)
}

// ── The reader ───────────────────────────────────────────────────────────

/// The name in a header line `[ name ]`, or none where the line is not a header.
pub open spec fn header_name(line: Seq<char>) -> Option<Seq<char>> {
    let t = trim(line);
    if t.len() >= 2 && t[0] == '[' && t.last() == ']' {
        Some(trim(t.subrange(1, t.len() - 1)))
    } else {
        None
    }
}

pub open spec fn is_marker(c: char) -> bool {
    c == ';' || c == '#'
}

/// The position of the first comment marker, or the length.
pub open spec fn first_marker(s: Seq<char>) -> int
    decreases s.len(),
{
    if s.len() == 0 || is_marker(s[0]) {
        0
    } else {
        1 + first_marker(s.skip(1))
    }
}

/// A value without its inline comment.
pub open spec fn without_comment(v: Seq<char>) -> Seq<char> {
    trim_end(v.take(first_marker(v)))
}

/// Key and value of a line `key = value`. A header and a comment line have none.
pub open spec fn key_line(line: Seq<char>) -> Option<(Seq<char>, Seq<char>)> {
    let t = trim(line);
    let eq = find_char(t, '=');
    if header_name(line) is Some || t.len() == 0 || is_marker(t[0]) || eq >= t.len() {
        None
    } else {
        Some((trim(t.take(eq)), without_comment(trim(t.skip(eq + 1)))))
    }
}

/// The sections after one more line: a header opens one, a key goes to the last.
pub open spec fn step(acc: Seq<SectionView>, line: Seq<char>) -> Seq<SectionView> {
    match header_name(line) {
        Some(id) => acc.push(SectionView { id, keys: Map::empty() }),
        None => match key_line(line) {
            Some((k, v)) => if acc.len() > 0 {
                acc.drop_last().push(
                    SectionView { id: acc.last().id, keys: acc.last().keys.insert(k, v) },
                )
            } else {
                acc
            },
            None => acc,
        },
    }
}

/// The sections after some more lines.
pub open spec fn sections_from(acc: Seq<SectionView>, ls: Seq<Seq<char>>) -> Seq<SectionView>
    decreases ls.len(),
{
    if ls.len() == 0 {
        acc
    } else {
        step(sections_from(acc, ls.drop_last()), ls.last())
    }
}

/// The sections of a text, in its order.
pub open spec fn read(text: Seq<char>) -> Seq<SectionView> {
    sections_from(Seq::empty(), lines_incl(text))
}

/// The first section with the name, in any case, or -1.
pub open spec fn section_at(s: Seq<SectionView>, name: Seq<char>) -> int
    decreases s.len(),
{
    if s.len() == 0 {
        -1
    } else if section_at(s.drop_last(), name) >= 0 {
        section_at(s.drop_last(), name)
    } else if lower_all(s.last().id) == lower_all(name) {
        s.len() - 1
    } else {
        -1
    }
}

/// The keys of the named section, or none.
pub open spec fn keys_of(text: Seq<char>, name: Seq<char>) -> Map<Seq<char>, Seq<char>> {
    let at = section_at(read(text), name);
    if at >= 0 {
        read(text)[at].keys
    } else {
        Map::empty()
    }
}

fn name_in_header<'a>(line: &'a [char]) -> (r: Option<&'a [char]>)
    ensures
        match r {
            Some(n) => header_name(line@) == Some(n@),
            None => header_name(line@) is None,
        },
{
    let t = trimmed(line);
    if t.len() >= 2 && t[0] == '[' && t[t.len() - 1] == ']' {
        Some(trimmed(slice_subrange(t, 1, t.len() - 1)))
    } else {
        None
    }
}

proof fn lemma_first_marker(s: Seq<char>, i: int)
    requires
        0 <= i <= s.len(),
        forall|k: int| 0 <= k < i ==> !is_marker(#[trigger] s[k]),
        i < s.len() ==> is_marker(s[i]),
    ensures
        first_marker(s) == i,
    decreases s.len(),
{
    if s.len() > 0 && i > 0 {
        assert(!is_marker(s[0]));
        assert forall|k: int| 0 <= k < i - 1 implies !is_marker(#[trigger] s.skip(1)[k]) by {
            assert(s.skip(1)[k] == s[k + 1]);
        }
        lemma_first_marker(s.skip(1), i - 1);
    }
}

fn marker_position(c: &[char]) -> (r: usize)
    ensures
        r == first_marker(c@),
        r <= c@.len(),
        r < c@.len() <==> exists|k: int| 0 <= k < c@.len() && is_marker(#[trigger] c@[k]),
{
    let mut i: usize = 0;
    while i < c.len() && c[i] != ';' && c[i] != '#'
        invariant
            i <= c.len(),
            forall|k: int| 0 <= k < i ==> !is_marker(#[trigger] c@[k]),
        decreases c.len() - i,
    {
        i += 1;
    }
    proof {
        lemma_first_marker(c@, i as int);
        if i < c.len() {
            assert(is_marker(c@[i as int]));
        }
    }
    i
}

fn comment_stripped<'a>(v: &'a [char]) -> (r: &'a [char])
    ensures
        r@ == without_comment(v@),
{
    let end: usize = marker_position(v);
    let head = slice_subrange(v, 0, end);
    assert(head@ =~= v@.take(end as int));
    trimmed_end(head)
}

/// A value without its inline comment: everything from the first `;` or `#` on
/// goes, and the white space before it.
pub fn strip_inline_comment(val: &str) -> (r: String)
    ensures
        r@ == without_comment(val@),
{
    let c = to_chars(val);
    from_chars(comment_stripped(c.as_slice()))
}

/// The sections of an INI text, in the order of their headers.
pub fn read_all(text: &str) -> (r: Vec<Section>)
    ensures
        sections_view(r@) == read(text@),
{
    let c = to_chars(text);
    let ls = lines_incl_of(c.as_slice());
    let mut out: Vec<Section> = Vec::new();
    let mut i: usize = 0;
    assert(sections_view(out@) =~= sections_from(Seq::empty(), pieces(ls@).take(0)));
    while i < ls.len()
        invariant
            i <= ls.len(),
            pieces(ls@) == lines_incl(text@),
            sections_view(out@) == sections_from(Seq::empty(), pieces(ls@).take(i as int)),
        decreases ls.len() - i,
    {
        let ghost before = out@;
        let line = ls[i];
        proof {
            let p = pieces(ls@).take(i + 1);
            assert(p.drop_last() =~= pieces(ls@).take(i as int));
            assert(p.last() == ls@[i as int]@);
            assert(sections_view(before).len() == before.len());
        }
        match name_in_header(line) {
            Some(name) => {
                out.push(Section { id: from_chars(name), keys: Keys::new() });
                assert(sections_view(out@) =~= step(sections_view(before), line@));
            },
            None => {
                let t = trimmed(line);
                if t.len() > 0 && t[0] != ';' && t[0] != '#' {
                    let eq: usize = position(t, '=');
                    if eq < t.len() {
                        let head = slice_subrange(t, 0, eq);
                        let tail = slice_subrange(t, eq + 1, t.len());
                        assert(head@ =~= t@.take(eq as int));
                        assert(tail@ =~= t@.skip(eq + 1));
                        let key = from_chars(trimmed(head));
                        let value = from_chars(comment_stripped(trimmed(tail)));
                        match out.pop() {
                            Some(last) => {
                                let mut section = last;
                                proof {
                                    assert(sections_view(before).last() == section@);
                                    assert(sections_view(before).drop_last() =~= sections_view(
                                        before.drop_last(),
                                    ));
                                }
                                section.keys.insert(key, value);
                                out.push(section);
                                assert(out@ =~= before.drop_last().push(section));
                                assert(sections_view(out@) =~= step(sections_view(before), line@));
                            },
                            None => {},
                        }
                    }
                }
            },
        }
        assert(sections_view(out@) =~= step(sections_view(before), line@));
        i += 1;
    }
    assert(pieces(ls@).take(ls@.len() as int) =~= pieces(ls@));
    out
}

/// The keys of the named section, or none where there is no such section.
pub fn read_section(text: &str, section: &str) -> (r: Keys)
    ensures
        r@ == keys_of(text@, section@),
{
    let mut all = read_all(text);
    let name = to_chars(section);
    let mut i: usize = 0;
    assert(sections_view(all@).len() == all@.len());
    while i < all.len()
        invariant
            i <= all.len(),
            name@ == section@,
            sections_view(all@) == read(text@),
            section_at(read(text@).take(i as int), section@) < 0,
        decreases all.len() - i,
    {
        let id = to_chars(all[i].id.as_str());
        proof {
            let p = read(text@).take(i + 1);
            assert(p.drop_last() =~= read(text@).take(i as int));
            assert(p.last() == all@[i as int]@);
        }
        if same_ignore_case(id.as_slice(), name.as_slice()) {
            proof {
                lemma_section_at_prefix(read(text@), section@, i + 1);
                assert(read(text@)[i as int] == all@[i as int]@);
            }
            return all.remove(i).keys;
        }
        i += 1;
    }
    assert(read(text@).take(all@.len() as int) =~= read(text@));
    Keys::new()
}

proof fn lemma_section_at_prefix(s: Seq<SectionView>, name: Seq<char>, n: int)
    requires
        0 <= n <= s.len(),
        section_at(s.take(n), name) >= 0,
    ensures
        section_at(s, name) == section_at(s.take(n), name),
    decreases s.len() - n,
{
    if n == s.len() {
        assert(s.take(n) =~= s);
    } else {
        assert(s.take(n + 1).drop_last() =~= s.take(n));
        lemma_section_at_prefix(s, name, n + 1);
    }
}

/// Whether a value holds a comment marker.
pub open spec fn has_marker(s: Seq<char>) -> bool {
    exists|k: int| 0 <= k < s.len() && is_marker(#[trigger] s[k])
}

/// What a field is told whose value would be cut.
pub open spec fn marker_problem(field: Seq<char>) -> Seq<char> {
    field
        + " contains ';' or '#', which the INI comment rule would truncate on reload — use a path without those characters"@
}

/// Refuses a value that holds `;` or `#`: it would reload cut short.
pub fn reject_comment_markers(field: &str, value: &str) -> (r: Result<(), String>)
    ensures
        match r {
            Ok(_) => !has_marker(value@),
            Err(e) => has_marker(value@) && e@ == marker_problem(field@),
        },
{
    let c = to_chars(value);
    if marker_position(c.as_slice()) < c.len() {
        let mut e: String = field.to_owned();
        e.append(
            " contains ';' or '#', which the INI comment rule would truncate on reload — use a path without those characters",
        );
        return Err(e);
    }
    Ok(())
}

/// A value passes the guard exactly where the reader would not cut it at a marker.
pub proof fn law_guard_matches_reader(v: Seq<char>)
    ensures
        !has_marker(v) <==> first_marker(v) == v.len(),
        !has_marker(v) && trim_end(v) == v ==> without_comment(v) == v,
        has_marker(v) ==> without_comment(v) != v,
    decreases v.len(),
{
    lemma_first_marker_bounds(v);
    if !has_marker(v) {
        lemma_first_marker(v, v.len() as int);
        assert(v.take(v.len() as int) =~= v);
    } else {
        lemma_trim_end_shape(v.take(first_marker(v)));
    }
}

proof fn lemma_first_marker_bounds(s: Seq<char>)
    ensures
        0 <= first_marker(s) <= s.len(),
        first_marker(s) < s.len() ==> is_marker(s[first_marker(s)]),
        forall|k: int| 0 <= k < first_marker(s) ==> !is_marker(#[trigger] s[k]),
    decreases s.len(),
{
    if s.len() > 0 && !is_marker(s[0]) {
        lemma_first_marker_bounds(s.skip(1));
        assert forall|k: int| 0 <= k < first_marker(s) implies !is_marker(#[trigger] s[k]) by {
            if k > 0 {
                assert(s[k] == s.skip(1)[k - 1]);
            }
        }
    }
}

// ── Line endings ─────────────────────────────────────────────────────────

/// The line ending of a text: LF only where it has line feeds and no CRLF.
pub open spec fn eol_of(content: Seq<char>) -> Seq<char> {
    if content.contains('\n') && !contains(content, "\r\n"@) {
        "\n"@
    } else {
        "\r\n"@
    }
}

fn detect_eol(c: &[char]) -> (r: &'static str)
    ensures
        r@ == eol_of(c@),
        r@ == "\n"@ || r@ == "\r\n"@,
{
    let crlf = to_chars("\r\n");
    if has_char(c, '\n') && index_of(c, crlf.as_slice()).is_none() {
        "\n"
    } else {
        "\r\n"
    }
}

/// A text with the one line ending throughout.
pub open spec fn with_eol(s: Seq<char>, eol: Seq<char>) -> Seq<char> {
    let lf = replace_all(s, "\r\n"@, "\n"@);
    if eol == "\n"@ {
        lf
    } else {
        replace_all(lf, "\n"@, "\r\n"@)
    }
}

fn normalize_eol(s: &[char], eol: &str) -> (r: String)
    ensures
        r@ == with_eol(s@, eol@),
{
    proof {
        reveal_strlit("\r\n");
        reveal_strlit("\n");
    }
    let lf = replaced_all(s, "\r\n", "\n");
    if str_eq(eol, "\n") {
        lf
    } else {
        let c = to_chars(lf.as_str());
        replaced_all(c.as_slice(), "\n", "\r\n")
    }
}

/// A text without the line ends at its end.
pub open spec fn without_line_ends(s: Seq<char>) -> Seq<char>
    decreases s.len(),
{
    if s.len() > 0 && (s.last() == '\r' || s.last() == '\n') {
        without_line_ends(s.drop_last())
    } else {
        s
    }
}

fn line_ends_stripped<'a>(c: &'a [char]) -> (r: &'a [char])
    ensures
        r@ == without_line_ends(c@),
        r@.len() <= c@.len(),
        r@ == c@.take(r@.len() as int),
{
    let mut i: usize = c.len();
    assert(c@.take(c@.len() as int) =~= c@);
    while i > 0 && (c[i - 1] == '\r' || c[i - 1] == '\n')
        invariant
            i <= c.len(),
            without_line_ends(c@.take(i as int)) == without_line_ends(c@),
        decreases i,
    {
        assert(c@.take(i as int).drop_last() =~= c@.take(i as int - 1));
        i -= 1;
    }
    assert(c@.subrange(0, i as int) =~= c@.take(i as int));
    slice_subrange(c, 0, i)
}

// ── Finding sections in lines ────────────────────────────────────────────

pub open spec fn is_header_of(line: Seq<char>, name: Seq<char>) -> bool {
    match header_name(line) {
        Some(n) => lower_all(n) == lower_all(name),
        None => false,
    }
}

/// The first line that is the header of the section, from `from` on, or the
/// number of lines.
pub open spec fn header_from(ls: Seq<Seq<char>>, name: Seq<char>, from: int) -> int
    decreases ls.len() - from,
{
    if from < 0 || from >= ls.len() || is_header_of(ls[from], name) {
        from
    } else {
        header_from(ls, name, from + 1)
    }
}

/// Whether a line opens a section: its first character that is not white space is
/// a bracket.
pub open spec fn opens_section(line: Seq<char>) -> bool {
    trim_start(line).len() > 0 && trim_start(line)[0] == '['
}

/// The first line that opens a section, from `from` on, or the number of lines.
pub open spec fn opening_from(ls: Seq<Seq<char>>, from: int) -> int
    decreases ls.len() - from,
{
    if from < 0 || from >= ls.len() || opens_section(ls[from]) {
        from
    } else {
        opening_from(ls, from + 1)
    }
}

fn find_section_header(ls: &Vec<&[char]>, section: &[char]) -> (r: usize)
    ensures
        r == header_from(pieces(ls@), section@, 0),
        r <= ls@.len(),
        r < ls@.len() ==> is_header_of(ls@[r as int]@, section@),
{
    let mut i: usize = 0;
    loop
        invariant
            i <= ls.len(),
            header_from(pieces(ls@), section@, 0) == header_from(pieces(ls@), section@, i as int),
        decreases ls.len() - i,
    {
        if i == ls.len() {
            return i;
        }
        assert(pieces(ls@)[i as int] == ls@[i as int]@);
        if let Some(name) = name_in_header(ls[i]) {
            if same_ignore_case(name, section) {
                return i;
            }
        }
        i += 1;
    }
}

fn next_section_start(ls: &Vec<&[char]>, from: usize) -> (r: usize)
    requires
        from <= ls@.len(),
    ensures
        r == opening_from(pieces(ls@), from as int),
        from <= r <= ls@.len(),
{
    let mut i: usize = from;
    loop
        invariant
            from <= i <= ls.len(),
            opening_from(pieces(ls@), from as int) == opening_from(pieces(ls@), i as int),
        decreases ls.len() - i,
    {
        if i == ls.len() {
            return i;
        }
        assert(pieces(ls@)[i as int] == ls@[i as int]@);
        let t = trimmed_start(ls[i]);
        if t.len() > 0 && t[0] == '[' {
            return i;
        }
        i += 1;
    }
}

// ── Writing a key ────────────────────────────────────────────────────────

/// Whether a line sets the key, in any case of its letters.
pub open spec fn sets_key(line: Seq<char>, key: Seq<char>) -> bool {
    let t = trim_start(line);
    let rest = trim_start(t.skip(key.len() as int));
    t.len() >= key.len() && lower_all(t.take(key.len() as int)) == lower_all(key) && rest.len() > 0
        && rest[0] == '='
}

/// The first line that sets the key, from `from` on, or the number of lines.
pub open spec fn key_from(ls: Seq<Seq<char>>, key: Seq<char>, from: int) -> int
    decreases ls.len() - from,
{
    if from < 0 || from >= ls.len() || sets_key(ls[from], key) {
        from
    } else {
        key_from(ls, key, from + 1)
    }
}

/// The line end of a line, or another one where it has none.
pub open spec fn end_of(line: Seq<char>, eol: Seq<char>) -> Seq<char> {
    if line.len() >= 2 && line.last() == '\n' && line[line.len() - 2] == '\r' {
        "\r\n"@
    } else if line.len() > 0 && line.last() == '\n' {
        "\n"@
    } else {
        eol
    }
}

/// The line that sets a key.
pub open spec fn assignment(key: Seq<char>, value: Seq<char>) -> Seq<char> {
    key + " = "@ + value
}

/// The body of a section with the key set: in the place of the line that sets it,
/// or behind the last line that is not blank.
pub open spec fn body_with_key(
    body: Seq<Seq<char>>,
    key: Seq<char>,
    line: Seq<char>,
    eol: Seq<char>,
) -> Seq<char> {
    let at = key_from(body, key, 0);
    if at < body.len() {
        concat(body.take(at)) + line + end_of(body[at], eol) + concat(body.skip(at + 1))
    } else {
        let all = concat(body);
        let kept = without_line_ends(all);
        let tail = all.skip(kept.len() as int);
        if kept.len() == 0 {
            line + eol + tail
        } else {
            kept + eol + line + tail
        }
    }
}

/// A text with the key of the section set.
pub open spec fn key_set(
    content: Seq<char>,
    section: Seq<char>,
    key: Seq<char>,
    value: Seq<char>,
) -> Seq<char> {
    let eol = eol_of(content);
    let line = assignment(key, value);
    let ls = lines_incl(content);
    let h = header_from(ls, section, 0);
    if h >= ls.len() {
        content + (if ends_line(content) {
            Seq::empty()
        } else {
            eol
        }) + (if content.len() == 0 {
            Seq::empty()
        } else {
            eol
        }) + "["@ + section + "]"@ + eol + line + eol
    } else {
        let end = opening_from(ls, h + 1);
        concat(ls.take(h + 1)) + (if ls[h].last() == '\n' {
            Seq::empty()
        } else {
            eol
        }) + body_with_key(ls.subrange(h + 1, end), key, line, eol) + concat(ls.skip(end))
    }
}

fn line_starts_with_key(line: &[char], key: &[char]) -> (r: bool)
    ensures
        r == sets_key(line@, key@),
{
    let t = trimmed_start(line);
    if t.len() < key.len() {
        return false;
    }
    let head = slice_subrange(t, 0, key.len());
    let tail = slice_subrange(t, key.len(), t.len());
    assert(head@ =~= t@.take(key@.len() as int));
    assert(tail@ =~= t@.skip(key@.len() as int));
    if !same_ignore_case(head, key) {
        return false;
    }
    let rest = trimmed_start(tail);
    rest.len() > 0 && rest[0] == '='
}

fn push_body(
    out: &mut String,
    ls: &Vec<&[char]>,
    lo: usize,
    hi: usize,
    key: &[char],
    line: &str,
    eol: &str,
)
    requires
        lo <= hi <= ls@.len(),
    ensures
        final(out)@ == old(out)@ + body_with_key(
            pieces(ls@).subrange(lo as int, hi as int),
            key@,
            line@,
            eol@,
        ),
{
    let ghost body = pieces(ls@).subrange(lo as int, hi as int);
    let ghost start = out@;
    let mut i: usize = lo;
    while i < hi && !line_starts_with_key(ls[i], key)
        invariant
            lo <= i <= hi <= ls@.len(),
            body == pieces(ls@).subrange(lo as int, hi as int),
            key_from(body, key@, 0) == key_from(body, key@, i - lo),
        decreases hi - i,
    {
        assert(body[i - lo] == ls@[i as int]@);
        i += 1;
    }
    if i < hi {
        assert(body[i - lo] == ls@[i as int]@);
        push_pieces(out, ls, lo, i);
        out.append(line);
        let l = ls[i];
        if l.len() >= 2 && l[l.len() - 1] == '\n' && l[l.len() - 2] == '\r' {
            out.append("\r\n");
        } else if l.len() > 0 && l[l.len() - 1] == '\n' {
            out.append("\n");
        } else {
            out.append(eol);
        }
        push_pieces(out, ls, i + 1, hi);
        proof {
            assert(body.take(i - lo) =~= pieces(ls@).subrange(lo as int, i as int));
            assert(body.skip(i - lo + 1) =~= pieces(ls@).subrange(i + 1, hi as int));
            assert(out@ =~= start + body_with_key(body, key@, line@, eol@));
        }
    } else {
        assert(key_from(body, key@, 0) == body.len());
        let mut all: String = String::new();
        push_pieces(&mut all, ls, lo, hi);
        assert(all@ =~= concat(body));
        let c = to_chars(all.as_str());
        let kept = line_ends_stripped(c.as_slice());
        let tail = slice_subrange(c.as_slice(), kept.len(), c.len());
        assert(tail@ =~= all@.skip(kept@.len() as int));
        if kept.len() == 0 {
            out.append(line);
            out.append(eol);
            push_chars(out, tail);
        } else {
            push_chars(out, kept);
            out.append(eol);
            out.append(line);
            push_chars(out, tail);
        }
        assert(out@ =~= start + body_with_key(body, key@, line@, eol@));
    }
}

/// Sets one key of the named section.
pub fn replace_key(content: &str, section: &str, key: &str, value: &str) -> (r: String)
    ensures
        r@ == key_set(content@, section@, key@, value@),
{
    let c = to_chars(content);
    let name = to_chars(section);
    let k = to_chars(key);
    let eol = detect_eol(c.as_slice());
    let mut line: String = key.to_owned();
    line.append(" = ");
    line.append(value);
    let ls = lines_incl_of(c.as_slice());
    let ghost lines = lines_incl(content@);
    assert(pieces(ls@).len() == ls@.len());
    let h: usize = find_section_header(&ls, name.as_slice());
    if h == ls.len() {
        let mut out: String = content.to_owned();
        if c.len() > 0 && c[c.len() - 1] != '\n' {
            out.append(eol);
        }
        if c.len() > 0 {
            out.append(eol);
        }
        out.append("[");
        out.append(section);
        out.append("]");
        out.append(eol);
        out.append(line.as_str());
        out.append(eol);
        assert(out@ =~= key_set(content@, section@, key@, value@));
        return out;
    }
    let end: usize = next_section_start(&ls, h + 1);
    let mut out: String = String::new();
    push_pieces(&mut out, &ls, 0, h + 1);
    assert(lines[h as int] == ls@[h as int]@);
    let header = ls[h];
    proof {
        lemma_lines_incl_shape(content@);
    }
    if header[header.len() - 1] != '\n' {
        out.append(eol);
    }
    push_body(&mut out, &ls, h + 1, end, k.as_slice(), line.as_str(), eol);
    push_pieces(&mut out, &ls, end, ls.len());
    proof {
        assert(lines.subrange(0, h + 1) =~= lines.take(h + 1));
        assert(lines.subrange(end as int, lines.len() as int) =~= lines.skip(end as int));
        assert(out@ =~= key_set(content@, section@, key@, value@));
    }
    out
}

// ── Writing a section ────────────────────────────────────────────────────

/// The text of a section as it goes into a file: trimmed at its end, with the
/// file's line ending, and ended by one.
pub open spec fn section_text(body: Seq<char>, eol: Seq<char>) -> Seq<char> {
    let b = with_eol(trim_end(body), eol);
    if b.len() == 0 {
        Seq::empty()
    } else {
        b + eol
    }
}

/// A text with the section replaced, or put at its end.
pub open spec fn section_set(content: Seq<char>, name: Seq<char>, body: Seq<char>) -> Seq<char> {
    let eol = eol_of(content);
    let new_section = section_text(body, eol);
    let ls = lines_incl(content);
    let h = header_from(ls, name, 0);
    if h >= ls.len() {
        (if content.len() == 0 {
            Seq::empty()
        } else {
            without_line_ends(content) + eol + eol
        }) + new_section
    } else {
        let next = opening_from(ls, h + 1);
        concat(ls.take(h)) + new_section + (if next >= ls.len() {
            Seq::empty()
        } else {
            eol
        }) + concat(ls.skip(next))
    }
}

/// Replaces, or appends, a whole section. The body comes with any line endings
/// and takes those of the text.
pub fn replace_section(content: &str, section_name: &str, section_body: &str) -> (r: String)
    ensures
        r@ == section_set(content@, section_name@, section_body@),
{
    let c = to_chars(content);
    let name = to_chars(section_name);
    let eol = detect_eol(c.as_slice());
    let b = to_chars(section_body);
    let mut new_section: String = normalize_eol(trimmed_end(b.as_slice()), eol);
    if !new_section.as_str().is_empty() {
        new_section.append(eol);
    }
    assert(new_section@ =~= section_text(section_body@, eol@));
    let ls = lines_incl_of(c.as_slice());
    let ghost lines = lines_incl(content@);
    assert(pieces(ls@).len() == ls@.len());
    let h: usize = find_section_header(&ls, name.as_slice());
    let mut out: String = String::new();
    if h == ls.len() {
        if c.len() > 0 {
            push_chars(&mut out, line_ends_stripped(c.as_slice()));
            out.append(eol);
            out.append(eol);
        }
        out.append(new_section.as_str());
        assert(out@ =~= section_set(content@, section_name@, section_body@));
        return out;
    }
    let next: usize = next_section_start(&ls, h + 1);
    push_pieces(&mut out, &ls, 0, h);
    out.append(new_section.as_str());
    if next < ls.len() {
        out.append(eol);
    }
    push_pieces(&mut out, &ls, next, ls.len());
    proof {
        assert(lines.subrange(0, h as int) =~= lines.take(h as int));
        assert(lines.subrange(next as int, lines.len() as int) =~= lines.skip(next as int));
        assert(out@ =~= section_set(content@, section_name@, section_body@));
    }
    out
}

/// Why a section cannot be renamed.
#[derive(Debug, Clone, Copy, PartialEq, Eq)]
pub enum RenameError {
    /// No section has the old name.
    NotFound,
    /// Another section has the new name.
    AlreadyExists,
}

impl RenameError {
    /// The error in words.
    pub open spec fn text(self, old: Seq<char>, new: Seq<char>) -> Seq<char> {
        match self {
            RenameError::NotFound => "section ["@ + old + "] not found"@,
            RenameError::AlreadyExists => "section ["@ + new + "] already exists"@,
        }
    }

    /// The error in words.
    pub fn message(self, old: &str, new: &str) -> (r: String)
        ensures
            r@ == self.text(old@, new@),
    {
        let mut out: String = "section [".to_owned();
        match self {
            RenameError::NotFound => {
                out.append(old);
                out.append("] not found");
            },
            RenameError::AlreadyExists => {
                out.append(new);
                out.append("] already exists");
            },
        }
        out
    }
}

/// A header line with another name between its brackets; what is around them
/// stays.
pub open spec fn renamed_line(line: Seq<char>, new: Seq<char>) -> Seq<char> {
    let start = line.len() - trim_start(line).len();
    line.take(start) + "["@ + new + "]"@ + line.skip(start + trim(line).len())
}

/// A text with a section renamed.
pub open spec fn section_renamed(content: Seq<char>, old_name: Seq<char>, new: Seq<char>) -> Result<
    Seq<char>,
    RenameError,
> {
    let ls = lines_incl(content);
    let h = header_from(ls, old_name, 0);
    let other = header_from(ls, new, 0);
    if h >= ls.len() {
        Err(RenameError::NotFound)
    } else if other < ls.len() && other != h {
        Err(RenameError::AlreadyExists)
    } else {
        Ok(concat(ls.take(h)) + renamed_line(ls[h], new) + concat(ls.skip(h + 1)))
    }
}

/// Renames a section where its header stands. Changing only the case of the name
/// is allowed.
pub fn rename_section(content: &str, old_name: &str, new: &str) -> (r: Result<String, RenameError>)
    ensures
        match r {
            Ok(t) => section_renamed(content@, old_name@, new@) == Ok::<Seq<char>, RenameError>(t@),
            Err(e) => section_renamed(content@, old_name@, new@) == Err::<Seq<char>, RenameError>(e),
        },
{
    let c = to_chars(content);
    let o = to_chars(old_name);
    let n = to_chars(new);
    let ls = lines_incl_of(c.as_slice());
    let ghost lines = lines_incl(content@);
    assert(pieces(ls@).len() == ls@.len());
    let h: usize = find_section_header(&ls, o.as_slice());
    if h == ls.len() {
        return Err(RenameError::NotFound);
    }
    let other: usize = find_section_header(&ls, n.as_slice());
    if other < ls.len() && other != h {
        return Err(RenameError::AlreadyExists);
    }
    let line = ls[h];
    assert(lines[h as int] == line@);
    let rest = trimmed_start(line);
    let t = trimmed_end(rest);
    proof {
        lemma_trim_start_shape(line@);
        lemma_trim_end_shape(rest@);
    }
    let start: usize = line.len() - rest.len();
    let end: usize = start + t.len();
    let head = slice_subrange(line, 0, start);
    let tail = slice_subrange(line, end, line.len());
    let mut out: String = String::new();
    push_pieces(&mut out, &ls, 0, h);
    push_chars(&mut out, head);
    out.append("[");
    out.append(new);
    out.append("]");
    push_chars(&mut out, tail);
    push_pieces(&mut out, &ls, h + 1, ls.len());
    proof {
        assert(head@ =~= line@.take(start as int));
        assert(tail@ =~= line@.skip(end as int));
        assert(lines.subrange(0, h as int) =~= lines.take(h as int));
        assert(lines.subrange(h + 1, lines.len() as int) =~= lines.skip(h + 1));
        assert(out@ =~= concat(lines.take(h as int)) + renamed_line(line@, new@) + concat(
            lines.skip(h + 1),
        ));
    }
    Ok(out)
}

/// A text in which three line ends in a row are two.
pub open spec fn tidied(s: Seq<char>) -> Seq<char> {
    replace_all(replace_all(s, "\r\n\r\n\r\n"@, "\r\n\r\n"@), "\n\n\n"@, "\n\n"@)
}

/// A text without the section, or none where it has no such section.
pub open spec fn section_deleted(content: Seq<char>, name: Seq<char>) -> Option<Seq<char>> {
    let ls = lines_incl(content);
    let h = header_from(ls, name, 0);
    if h >= ls.len() {
        None
    } else {
        Some(tidied(concat(ls.take(h)) + concat(ls.skip(opening_from(ls, h + 1)))))
    }
}

/// Removes a section. `None` where there is none to remove, and nothing to write.
pub fn delete_section(content: &str, section_name: &str) -> (r: Option<String>)
    ensures
        match r {
            Some(t) => section_deleted(content@, section_name@) == Some(t@),
            None => section_deleted(content@, section_name@) is None,
        },
{
    let c = to_chars(content);
    let name = to_chars(section_name);
    let ls = lines_incl_of(c.as_slice());
    let ghost lines = lines_incl(content@);
    assert(pieces(ls@).len() == ls@.len());
    let h: usize = find_section_header(&ls, name.as_slice());
    if h == ls.len() {
        return None;
    }
    let next: usize = next_section_start(&ls, h + 1);
    let mut out: String = String::new();
    push_pieces(&mut out, &ls, 0, h);
    push_pieces(&mut out, &ls, next, ls.len());
    proof {
        assert(lines.subrange(0, h as int) =~= lines.take(h as int));
        assert(lines.subrange(next as int, lines.len() as int) =~= lines.skip(next as int));
        assert(out@ =~= concat(lines.take(h as int)) + concat(lines.skip(next as int)));
        reveal_strlit("\r\n\r\n\r\n");
        reveal_strlit("\n\n\n");
    }
    let a = to_chars(out.as_str());
    let once = replaced_all(a.as_slice(), "\r\n\r\n\r\n", "\r\n\r\n");
    let b = to_chars(once.as_str());
    Some(replaced_all(b.as_slice(), "\n\n\n", "\n\n"))
}

// ── Scalars ──────────────────────────────────────────────────────────────

/// A whole number; surrounding white space does not matter.
pub fn parse_int(s: &str) -> (r: Option<i32>)
    ensures
        match r {
            Some(v) => parse_signed(trim(s@), i32::MIN as int, i32::MAX as int) == Some(v as int),
            None => parse_signed(trim(s@), i32::MIN as int, i32::MAX as int) is None,
        },
{
    let c = to_chars(s);
    match read_int(trimmed(c.as_slice()), i32::MIN as i64, i32::MAX as i64) {
        Some(v) => Some(v as i32),
        None => None,
    }
}

/// `true` or `false`; anything else reads as unset.
pub fn parse_bool(s: &str) -> (r: Option<bool>)
    ensures
        r == if trim(s@) == "true"@ {
            Some(true)
        } else if trim(s@) == "false"@ {
            Some(false)
        } else {
            None
        },
{
    let c = to_chars(s);
    let t = trimmed(c.as_slice());
    if is_str(t, "true") {
        Some(true)
    } else if is_str(t, "false") {
        Some(false)
    } else {
        None
    }
}

} // verus!
