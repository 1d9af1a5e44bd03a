//! Text as sequences of characters.
//!
//! Every parser and renderer of this crate is stated over `Seq<char>`, the view
//! of `String` and `&str`. This module holds the vocabulary they share: trimming,
//! splitting, joining, decimal numerals, substring search. The executable side
//! works on slices of characters (`&[char]`), so that no position is ever a byte
//! offset into the middle of a character.
use vstd::prelude::*;
use vstd::slice::slice_subrange;
use vstd::string::*;

verus! {

/// `String::push`: appends the one character at the end.
pub assume_specification[ String::push ](s: &mut String, c: char)
    ensures
        final(s)@ == old(s)@.push(c),
;

// ── Views ────────────────────────────────────────────────────────────────

/// The texts of a list of strings.
pub open spec fn strs(v: Seq<String>) -> Seq<Seq<char>> {
    v.map_values(|s: String| s@)
}

/// The texts of a list of slices.
pub open spec fn pieces(v: Seq<&[char]>) -> Seq<Seq<char>> {
    v.map_values(|s: &[char]| s@)
}

/// The text of an optional string.
pub open spec fn opt(o: Option<String>) -> Option<Seq<char>> {
    match o {
        Some(s) => Some(s@),
        None => None,
    }
}

// ── Characters ───────────────────────────────────────────────────────────

/// The characters with the Unicode `White_Space` property.
pub open spec fn is_space(c: char) -> bool {
    ||| '\u{9}' <= c <= '\u{d}'
    ||| c == ' '
    ||| c == '\u{85}'
    ||| c == '\u{a0}'
    ||| c == '\u{1680}'
    ||| '\u{2000}' <= c <= '\u{200a}'
    ||| c == '\u{2028}'
    ||| c == '\u{2029}'
    ||| c == '\u{202f}'
    ||| c == '\u{205f}'
    ||| c == '\u{3000}'
}

pub open spec fn is_digit(c: char) -> bool {
    '0' <= c <= '9'
}

pub open spec fn is_ascii_letter(c: char) -> bool {
    'a' <= c <= 'z' || 'A' <= c <= 'Z'
}

/// An ASCII capital becomes its small letter; every other character stays.
pub open spec fn lower(c: char) -> char {
    if 'A' <= c <= 'Z' {
        ((c as u8 + 32) as u8) as char
    } else {
        c
    }
}

pub open spec fn lower_all(s: Seq<char>) -> Seq<char> {
    Seq::new(s.len(), |i: int| lower(s[i]))
}

/// Whether the character is in the class `is_space`.
pub fn space(c: char) -> (r: bool)
    ensures
        r == is_space(c),
{
    ('\u{9}' <= c && c <= '\u{d}') || c == ' ' || c == '\u{85}' || c == '\u{a0}' || c
        == '\u{1680}' || ('\u{2000}' <= c && c <= '\u{200a}') || c == '\u{2028}' || c == '\u{2029}'
        || c == '\u{202f}' || c == '\u{205f}' || c == '\u{3000}'
}

pub fn digit(c: char) -> (r: bool)
    ensures
        r == is_digit(c),
{
    '0' <= c && c <= '9'
}

pub fn to_lower(c: char) -> (r: char)
    ensures
        r == lower(c),
{
    if 'A' <= c && c <= 'Z' {
        ((c as u8) + 32) as char
    } else {
        c
    }
}

// ── Conversions ──────────────────────────────────────────────────────────

/// The characters of a string.
pub fn to_chars(s: &str) -> (r: Vec<char>)
    ensures
        r@ == s@,
{
    let mut out: Vec<char> = Vec::new();
    for c in it: s.chars()
        invariant
            out@ == it.seq().take(it.index() as int),
            it.seq() == s@,
    {
        out.push(c);
    }
    out
}

/// Appends a run of characters to a string.
pub fn push_chars(out: &mut String, c: &[char])
    ensures
        final(out)@ == old(out)@ + c@,
{
    let mut i: usize = 0;
    while i < c.len()
        invariant
            i <= c.len(),
            out@ == old(out)@ + c@.take(i as int),
        decreases c.len() - i,
    {
        out.push(c[i]);
        i += 1;
    }
    assert(c@.take(c@.len() as int) =~= c@);
}

/// A string out of characters.
pub fn from_chars(c: &[char]) -> (r: String)
    ensures
        r@ == c@,
{
    let mut out: String = String::new();
    push_chars(&mut out, c);
    out
}

/// Equality of two runs of characters.
pub fn same(a: &[char], b: &[char]) -> (r: bool)
    ensures
        r == (a@ == b@),
{
    if a.len() != b.len() {
        return false;
    }
    let mut i: usize = 0;
    while i < a.len()
        invariant
            i <= a.len(),
            a.len() == b.len(),
            forall|k: int| 0 <= k < i ==> a@[k] == b@[k],
        decreases a.len() - i,
    {
        if a[i] != b[i] {
            return false;
        }
        i += 1;
    }
    assert(a@ =~= b@);
    true
}

/// Equality of two strings.
pub fn str_eq(a: &str, b: &str) -> (r: bool)
    ensures
        r == (a@ == b@),
{
    let x = to_chars(a);
    let y = to_chars(b);
    same(x.as_slice(), y.as_slice())
}

/// Equality of a run of characters with a string.
pub fn is_str(a: &[char], b: &str) -> (r: bool)
    ensures
        r == (a@ == b@),
{
    let y = to_chars(b);
    same(a, y.as_slice())
}

/// Equality up to the case of ASCII letters.
pub fn same_ignore_case(a: &[char], b: &[char]) -> (r: bool)
    ensures
        r == (lower_all(a@) == lower_all(b@)),
{
    if a.len() != b.len() {
        assert(lower_all(a@).len() != lower_all(b@).len());
        return false;
    }
    let mut i: usize = 0;
    while i < a.len()
        invariant
            i <= a.len(),
            a.len() == b.len(),
            forall|k: int| 0 <= k < i ==> lower(a@[k]) == lower(b@[k]),
        decreases a.len() - i,
    {
        if to_lower(a[i]) != to_lower(b[i]) {
            assert(lower_all(a@)[i as int] != lower_all(b@)[i as int]);
            return false;
        }
        i += 1;
    }
    assert(lower_all(a@) =~= lower_all(b@));
    true
}

/// Equality of two strings up to the case of ASCII letters.
pub fn str_eq_ignore_case(a: &str, b: &str) -> (r: bool)
    ensures
        r == (lower_all(a@) == lower_all(b@)),
{
    let x = to_chars(a);
    let y = to_chars(b);
    same_ignore_case(x.as_slice(), y.as_slice())
}

/// The string with its ASCII capitals made small.
pub fn to_lower_all(c: &[char]) -> (r: Vec<char>)
    ensures
        r@ == lower_all(c@),
{
    let mut out: Vec<char> = Vec::new();
    let mut i: usize = 0;
    while i < c.len()
        invariant
            i <= c.len(),
            out@ == lower_all(c@).take(i as int),
        decreases c.len() - i,
    {
        out.push(to_lower(c[i]));
        i += 1;
    }
    assert(lower_all(c@).take(c@.len() as int) =~= lower_all(c@));
    out
}

// ── Trimming ─────────────────────────────────────────────────────────────

pub open spec fn trim_start(s: Seq<char>) -> Seq<char>
    decreases s.len(),
{
    if s.len() > 0 && is_space(s[0]) {
        trim_start(s.skip(1))
    } else {
        s
    }
}

pub open spec fn trim_end(s: Seq<char>) -> Seq<char>
    decreases s.len(),
{
    if s.len() > 0 && is_space(s.last()) {
        trim_end(s.drop_last())
    } else {
        s
    }
}

/// The text without the white space at its two ends.
pub open spec fn trim(s: Seq<char>) -> Seq<char> {
    trim_end(trim_start(s))
}

pub fn trimmed_start(c: &[char]) -> (r: &[char])
    ensures
        r@ == trim_start(c@),
{
    let mut i: usize = 0;
    assert(c@.skip(0) =~= c@);
    while i < c.len() && space(c[i])
        invariant
            i <= c.len(),
            trim_start(c@.skip(i as int)) == trim_start(c@),
        decreases c.len() - i,
    {
        assert(c@.skip(i as int).skip(1) =~= c@.skip(i as int + 1));
        i += 1;
    }
    assert(c@.subrange(i as int, c@.len() as int) =~= c@.skip(i as int));
    slice_subrange(c, i, c.len())
}

pub fn trimmed_end(c: &[char]) -> (r: &[char])
    ensures
        r@ == trim_end(c@),
{
    let mut i: usize = c.len();
    assert(c@.take(c@.len() as int) =~= c@);
    while i > 0 && space(c[i - 1])
        invariant
            i <= c.len(),
            trim_end(c@.take(i as int)) == trim_end(c@),
        decreases i,
    {
        assert(c@.take(i as int).drop_last() =~= c@.take(i as int - 1));
        i -= 1;
    }
    assert(c@.subrange(0, i as int) =~= c@.take(i as int));
    slice_subrange(c, 0, i)
}

pub fn trimmed(c: &[char]) -> (r: &[char])
    ensures
        r@ == trim(c@),
{
    trimmed_end(trimmed_start(c))
}

/// The trimmed text of a string.
pub fn trim_str(s: &str) -> (r: String)
    ensures
        r@ == trim(s@),
{
    let c = to_chars(s);
    from_chars(trimmed(c.as_slice()))
}

/// Trimming the end leaves a prefix that does not end in white space.
pub proof fn lemma_trim_end_shape(s: Seq<char>)
    ensures
        trim_end(s).len() <= s.len(),
        trim_end(s) == s.take(trim_end(s).len() as int),
        trim_end(s).len() > 0 ==> !is_space(trim_end(s).last()),
    decreases s.len(),
{
    if s.len() > 0 && is_space(s.last()) {
        lemma_trim_end_shape(s.drop_last());
        assert(s.drop_last().take(trim_end(s).len() as int) =~= s.take(trim_end(s).len() as int));
    } else {
        assert(s.take(s.len() as int) =~= s);
    }
}

/// Trimming the start leaves a suffix that does not start with white space.
pub proof fn lemma_trim_start_shape(s: Seq<char>)
    ensures
        trim_start(s).len() <= s.len(),
        trim_start(s) == s.skip(s.len() - trim_start(s).len()),
        trim_start(s).len() > 0 ==> !is_space(trim_start(s)[0]),
    decreases s.len(),
{
    if s.len() > 0 && is_space(s[0]) {
        let t = s.skip(1);
        lemma_trim_start_shape(t);
        let k = t.len() - trim_start(t).len();
        assert(t.skip(k) =~= s.skip(k + 1));
    } else {
        assert(s.skip(0) =~= s);
    }
}

/// Trimming twice is trimming once.
pub proof fn lemma_trim_idempotent(s: Seq<char>)
    ensures
        trim(trim(s)) == trim(s),
{
    let a = trim_start(s);
    let b = trim_end(a);
    lemma_trim_start_shape(s);
    lemma_trim_end_shape(a);
    if b.len() > 0 {
        assert(b[0] == a[0]);
        assert(trim_start(b) == b);
        assert(trim_end(b) == b);
    }
}

// ── Searching ────────────────────────────────────────────────────────────

/// The position of the first `c`, or the length where there is none.
pub open spec fn find_char(s: Seq<char>, c: char) -> int
    decreases s.len(),
{
    if s.len() == 0 || s[0] == c {
        0
    } else {
        1 + find_char(s.skip(1), c)
    }
}

pub proof fn lemma_find_char(s: Seq<char>, c: char)
    ensures
        0 <= find_char(s, c) <= s.len(),
        forall|k: int| 0 <= k < find_char(s, c) ==> s[k] != c,
        find_char(s, c) < s.len() ==> s[find_char(s, c)] == c,
    decreases s.len(),
{
    if s.len() > 0 && s[0] != c {
        lemma_find_char(s.skip(1), c);
        assert forall|k: int| 0 <= k < find_char(s, c) implies s[k] != c by {
            if k > 0 {
                assert(s[k] == s.skip(1)[k - 1]);
            }
        }
    }
}

/// The first position is the only one with the two properties above.
pub proof fn lemma_find_char_is(s: Seq<char>, c: char, i: int)
    requires
        0 <= i <= s.len(),
        forall|k: int| 0 <= k < i ==> s[k] != c,
        i < s.len() ==> s[i] == c,
    ensures
        find_char(s, c) == i,
{
    lemma_find_char(s, c);
    if find_char(s, c) < i {
        assert(s[find_char(s, c)] == c);
    }
}

pub fn position(c: &[char], x: char) -> (r: usize)
    ensures
        r == find_char(c@, x),
        r <= c@.len(),
{
    let mut i: usize = 0;
    while i < c.len() && c[i] != x
        invariant
            i <= c.len(),
            forall|k: int| 0 <= k < i ==> c@[k] != x,
        decreases c.len() - i,
    {
        i += 1;
    }
    proof {
        lemma_find_char_is(c@, x, i as int);
    }
    i
}

/// Whether `p` stands in `s` at position `i`.
pub open spec fn occurs_at(s: Seq<char>, p: Seq<char>, i: int) -> bool {
    0 <= i && i + p.len() <= s.len() && s.subrange(i, i + p.len()) == p
}

pub open spec fn contains(s: Seq<char>, p: Seq<char>) -> bool {
    exists|i: int| #[trigger] occurs_at(s, p, i)
}

pub open spec fn starts_with(s: Seq<char>, p: Seq<char>) -> bool {
    occurs_at(s, p, 0)
}

pub open spec fn ends_with(s: Seq<char>, p: Seq<char>) -> bool {
    occurs_at(s, p, s.len() - p.len())
}

/// Whether `p` stands in `c` at position `i`.
pub fn matches_at(c: &[char], p: &[char], i: usize) -> (r: bool)
    ensures
        r == occurs_at(c@, p@, i as int),
{
    if i > c.len() || p.len() > c.len() - i {
        return false;
    }
    same(slice_subrange(c, i, i + p.len()), p)
}

/// The first position at which `p` stands in `s`, from `from` on.
pub open spec fn find_from(s: Seq<char>, p: Seq<char>, from: int) -> Option<int>
    decreases s.len() - from + 1,
{
    if from < 0 || from > s.len() {
        None
    } else if occurs_at(s, p, from) {
        Some(from)
    } else {
        find_from(s, p, from + 1)
    }
}

pub open spec fn find(s: Seq<char>, p: Seq<char>) -> Option<int> {
    find_from(s, p, 0)
}

pub proof fn lemma_find_from(s: Seq<char>, p: Seq<char>, from: int)
    requires
        0 <= from,
    ensures
        match find_from(s, p, from) {
            Some(i) => from <= i && occurs_at(s, p, i) && forall|k: int|
                from <= k < i ==> !#[trigger] occurs_at(s, p, k),
            None => forall|k: int| from <= k ==> !#[trigger] occurs_at(s, p, k),
        },
    decreases s.len() - from + 1,
{
    if from <= s.len() && !occurs_at(s, p, from) {
        lemma_find_from(s, p, from + 1);
    }
}

/// A text contains a pattern exactly where the search finds one.
pub proof fn lemma_find_contains(s: Seq<char>, p: Seq<char>)
    ensures
        contains(s, p) <==> find(s, p) is Some,
{
    lemma_find_from(s, p, 0);
}

pub fn index_of(c: &[char], p: &[char]) -> (r: Option<usize>)
    ensures
        match r {
            Some(i) => find(c@, p@) == Some(i as int) && i + p@.len() <= c@.len(),
            None => find(c@, p@) is None,
        },
        r is Some <==> contains(c@, p@),
{
    proof {
        lemma_find_contains(c@, p@);
    }
    let mut i: usize = 0;
    loop
        invariant
            i <= c.len(),
            find(c@, p@) == find_from(c@, p@, i as int),
            contains(c@, p@) <==> find(c@, p@) is Some,
        decreases c.len() - i,
    {
        if matches_at(c, p, i) {
            return Some(i);
        }
        if i == c.len() {
            assert(find_from(c@, p@, i + 1) is None);
            return None;
        }
        i += 1;
    }
}

/// Whether the string holds the other one.
pub fn str_contains(s: &str, p: &str) -> (r: bool)
    ensures
        r == contains(s@, p@),
{
    let c = to_chars(s);
    let q = to_chars(p);
    index_of(c.as_slice(), q.as_slice()).is_some()
}

pub fn has_prefix(c: &[char], p: &str) -> (r: bool)
    ensures
        r == starts_with(c@, p@),
{
    let q = to_chars(p);
    matches_at(c, q.as_slice(), 0)
}

pub fn has_suffix(c: &[char], p: &str) -> (r: bool)
    ensures
        r == ends_with(c@, p@),
{
    let q = to_chars(p);
    if q.len() > c.len() {
        return false;
    }
    matches_at(c, q.as_slice(), c.len() - q.len())
}

/// Whether a list of strings holds a text.
pub fn list_has(v: &Vec<String>, s: &str) -> (r: bool)
    ensures
        r == strs(v@).contains(s@),
{
    let mut i: usize = 0;
    while i < v.len()
        invariant
            i <= v.len(),
            forall|k: int| 0 <= k < i ==> strs(v@)[k] != s@,
        decreases v.len() - i,
    {
        if str_eq(v[i].as_str(), s) {
            assert(strs(v@)[i as int] == s@);
            return true;
        }
        i += 1;
    }
    false
}

// ── Lists of texts ───────────────────────────────────────────────────────

/// The position of the first text that equals another up to case, or -1.
pub open spec fn find_ignore_case(v: Seq<Seq<char>>, x: Seq<char>) -> int
    decreases v.len(),
{
    if v.len() == 0 {
        -1
    } else if find_ignore_case(v.drop_last(), x) >= 0 {
        find_ignore_case(v.drop_last(), x)
    } else if lower_all(v.last()) == lower_all(x) {
        v.len() - 1
    } else {
        -1
    }
}

pub fn index_ignore_case(v: &Vec<String>, x: &[char]) -> (r: Option<usize>)
    ensures
        match r {
            Some(i) => find_ignore_case(strs(v@), x@) == i && i < v@.len(),
            None => find_ignore_case(strs(v@), x@) == -1,
        },
{
    let mut i: usize = 0;
    while i < v.len()
        invariant
            i <= v.len(),
            find_ignore_case(strs(v@).take(i as int), x@) == -1,
        decreases v.len() - i,
    {
        let y = to_chars(v[i].as_str());
        let ghost t = strs(v@).take(i + 1);
        proof {
            assert(t.drop_last() =~= strs(v@).take(i as int));
            assert(t.last() == v@[i as int]@);
        }
        if same_ignore_case(y.as_slice(), x) {
            proof {
                lemma_find_ignore_case_prefix(strs(v@), x@, i + 1);
            }
            return Some(i);
        }
        i += 1;
    }
    assert(strs(v@).take(v@.len() as int) =~= strs(v@));
    None
}

proof fn lemma_find_ignore_case_prefix(v: Seq<Seq<char>>, x: Seq<char>, n: int)
    requires
        0 <= n <= v.len(),
        find_ignore_case(v.take(n), x) >= 0,
    ensures
        find_ignore_case(v, x) == find_ignore_case(v.take(n), x),
    decreases v.len() - n,
{
    if n == v.len() {
        assert(v.take(n) =~= v);
    } else {
        assert(v.take(n + 1).drop_last() =~= v.take(n));
        lemma_find_ignore_case_prefix(v, x, n + 1);
    }
}

// ── Splitting and joining ────────────────────────────────────────────────

/// The parts between the separators: always at least one.
pub open spec fn split(s: Seq<char>, sep: char) -> Seq<Seq<char>>
    decreases s.len(),
{
    let i = find_char(s, sep);
    if 0 <= i < s.len() {
        seq![s.take(i)] + split(s.skip(i + 1), sep)
    } else {
        seq![s]
    }
}

pub fn split_on<'a>(c: &'a [char], sep: char) -> (r: Vec<&'a [char]>)
    ensures
        pieces(r@) == split(c@, sep),
        r@.len() > 0,
{
    let mut out: Vec<&'a [char]> = Vec::new();
    let mut rest: &'a [char] = c;
    loop
        invariant
            pieces(out@) + split(rest@, sep) =~= split(c@, sep),
        decreases rest@.len(),
    {
        let i: usize = position(rest, sep);
        let ghost before = out@;
        if i < rest.len() {
            let part = slice_subrange(rest, 0, i);
            let next = slice_subrange(rest, i + 1, rest.len());
            out.push(part);
            proof {
                assert(part@ =~= rest@.take(i as int));
                assert(next@ =~= rest@.skip(i + 1));
                assert(pieces(out@) =~= pieces(before).push(rest@.take(i as int)));
                assert(split(rest@, sep) =~= seq![rest@.take(i as int)] + split(next@, sep));
            }
            rest = next;
        } else {
            out.push(rest);
            assert(pieces(out@) =~= pieces(before) + seq![rest@]);
            return out;
        }
    }
}

/// The texts of a list, trimmed, without those that are then empty.
pub open spec fn trimmed_nonempty(v: Seq<Seq<char>>) -> Seq<Seq<char>>
    decreases v.len(),
{
    if v.len() == 0 {
        Seq::empty()
    } else {
        let before = trimmed_nonempty(v.drop_last());
        let t = trim(v.last());
        if t.len() > 0 {
            before.push(t)
        } else {
            before
        }
    }
}

/// The entries of a separated list: trimmed, and none of them empty.
pub open spec fn entries(s: Seq<char>, sep: char) -> Seq<Seq<char>> {
    trimmed_nonempty(split(s, sep))
}

pub fn entries_of<'a>(c: &'a [char], sep: char) -> (r: Vec<&'a [char]>)
    ensures
        pieces(r@) == entries(c@, sep),
{
    let parts = split_on(c, sep);
    let mut out: Vec<&'a [char]> = Vec::new();
    let mut i: usize = 0;
    assert(pieces(out@) =~= trimmed_nonempty(pieces(parts@).take(0)));
    while i < parts.len()
        invariant
            i <= parts.len(),
            pieces(parts@) == split(c@, sep),
            pieces(out@) == trimmed_nonempty(pieces(parts@).take(i as int)),
        decreases parts.len() - i,
    {
        let ghost before = out@;
        let t = trimmed(parts[i]);
        proof {
            let p = pieces(parts@).take(i + 1);
            assert(p.drop_last() =~= pieces(parts@).take(i as int));
            assert(p.last() == parts@[i as int]@);
        }
        if t.len() > 0 {
            out.push(t);
            assert(pieces(out@) =~= pieces(before).push(t@));
        }
        i += 1;
    }
    assert(pieces(parts@).take(parts@.len() as int) =~= pieces(parts@));
    out
}

/// Strings out of runs of characters.
pub fn to_strings(v: &Vec<&[char]>) -> (r: Vec<String>)
    ensures
        strs(r@) == pieces(v@),
{
    let mut out: Vec<String> = Vec::new();
    let mut i: usize = 0;
    while i < v.len()
        invariant
            i <= v.len(),
            strs(out@) =~= pieces(v@).take(i as int),
        decreases v.len() - i,
    {
        let ghost before = out@;
        out.push(from_chars(v[i]));
        proof {
            assert(strs(out@) =~= strs(before).push(v@[i as int]@));
            assert(pieces(v@).take(i + 1) =~= pieces(v@).take(i as int).push(v@[i as int]@));
        }
        i += 1;
    }
    assert(pieces(v@).take(v@.len() as int) =~= pieces(v@));
    out
}

/// No part of a split holds the separator.
pub proof fn lemma_split_parts(s: Seq<char>, sep: char)
    ensures
        split(s, sep).len() > 0,
        forall|i: int| 0 <= i < split(s, sep).len() ==> !(#[trigger] split(s, sep)[i]).contains(sep),
    decreases s.len(),
{
    lemma_find_char(s, sep);
    let k = find_char(s, sep);
    if k < s.len() {
        lemma_split_parts(s.skip(k + 1), sep);
        let rest = split(s.skip(k + 1), sep);
        assert forall|i: int| 0 <= i < split(s, sep).len() implies !(#[trigger] split(
            s,
            sep,
        )[i]).contains(sep) by {
            if i > 0 {
                assert(split(s, sep)[i] == rest[i - 1]);
            }
        }
    }
}

/// Splitting two texts with a separator between them splits each.
pub proof fn lemma_split_concat(a: Seq<char>, b: Seq<char>, sep: char)
    ensures
        split(a + seq![sep] + b, sep) == split(a, sep) + split(b, sep),
    decreases a.len(),
{
    let s = a + seq![sep] + b;
    let k = find_char(a, sep);
    lemma_find_char(a, sep);
    assert(s[a.len() as int] == sep);
    assert forall|j: int| 0 <= j < k implies s[j] != sep by {
        assert(s[j] == a[j]);
    }
    if k < a.len() {
        assert(s[k] == a[k]);
        lemma_find_char_is(s, sep, k);
        lemma_split_concat(a.skip(k + 1), b, sep);
        assert(s.skip(k + 1) =~= a.skip(k + 1) + seq![sep] + b);
        assert(s.take(k) =~= a.take(k));
        assert(split(s, sep) =~= split(a, sep) + split(b, sep));
    } else {
        lemma_find_char_is(s, sep, k);
        assert(s.skip(k + 1) =~= b);
        assert(s.take(k) =~= a);
        assert(split(s, sep) =~= split(a, sep) + split(b, sep));
    }
}

/// Splitting what was joined gives the parts back, as long as none of them holds
/// the separator.
pub proof fn lemma_split_join(parts: Seq<Seq<char>>, sep: char)
    requires
        parts.len() > 0,
        forall|i: int| 0 <= i < parts.len() ==> !(#[trigger] parts[i]).contains(sep),
    ensures
        split(join(parts, seq![sep]), sep) == parts,
    decreases parts.len(),
{
    let last = parts.last();
    lemma_find_char(last, sep);
    if find_char(last, sep) < last.len() {
        assert(last.contains(sep));
    }
    assert(split(last, sep) =~= seq![last]);
    if parts.len() == 1 {
        assert(parts =~= seq![last]);
    } else {
        let init = parts.drop_last();
        assert forall|i: int| 0 <= i < init.len() implies !(#[trigger] init[i]).contains(sep) by {
            assert(init[i] == parts[i]);
        }
        lemma_split_join(init, sep);
        lemma_split_concat(join(init, seq![sep]), last, sep);
        assert(init + seq![last] =~= parts);
    }
}

/// A text that can stand as an entry of a separated list and read back the same.
pub open spec fn is_entry(p: Seq<char>, sep: char) -> bool {
    p.len() > 0 && trim(p) == p && !p.contains(sep)
}

proof fn lemma_trimmed_nonempty_id(v: Seq<Seq<char>>)
    requires
        forall|i: int| 0 <= i < v.len() ==> (#[trigger] v[i]).len() > 0 && trim(v[i]) == v[i],
    ensures
        trimmed_nonempty(v) == v,
    decreases v.len(),
{
    if v.len() > 0 {
        let init = v.drop_last();
        assert forall|i: int| 0 <= i < init.len() implies (#[trigger] init[i]).len() > 0 && trim(
            init[i],
        ) == init[i] by {
            assert(init[i] == v[i]);
        }
        lemma_trimmed_nonempty_id(init);
        assert(v[v.len() - 1] == v.last());
        assert(init.push(v.last()) =~= v);
    } else {
        assert(trimmed_nonempty(v) =~= v);
    }
}

/// A list of entries, joined and read again, is the same list.
pub proof fn lemma_entries_join(v: Seq<Seq<char>>, sep: char)
    requires
        forall|i: int| 0 <= i < v.len() ==> is_entry(#[trigger] v[i], sep),
    ensures
        entries(join(v, seq![sep]), sep) == v,
{
    if v.len() == 0 {
        let e = Seq::<char>::empty();
        assert(split(e, sep) =~= seq![e]);
        assert(seq![e].drop_last() =~= Seq::<Seq<char>>::empty());
        assert(trimmed_nonempty(Seq::<Seq<char>>::empty()) =~= Seq::<Seq<char>>::empty());
        assert(trim(e) == e);
        assert(trimmed_nonempty(seq![e]) =~= v);
    } else {
        assert forall|i: int| 0 <= i < v.len() implies !(#[trigger] v[i]).contains(sep) && v[i].len()
            > 0 && trim(v[i]) == v[i] by {
            assert(is_entry(v[i], sep));
        }
        lemma_split_join(v, sep);
        lemma_trimmed_nonempty_id(v);
    }
}

proof fn lemma_trim_keeps(s: Seq<char>, c: char)
    requires
        !s.contains(c),
    ensures
        !trim(s).contains(c),
{
    lemma_trim_start_shape(s);
    let a = trim_start(s);
    lemma_trim_end_shape(a);
    let b = trim_end(a);
    assert forall|i: int| 0 <= i < b.len() implies b[i] != c by {
        assert(b[i] == a[i]);
        assert(a[i] == s[i + (s.len() - a.len())]);
    }
}

proof fn lemma_trimmed_nonempty_are_entries(v: Seq<Seq<char>>, sep: char)
    requires
        forall|i: int| 0 <= i < v.len() ==> !(#[trigger] v[i]).contains(sep),
    ensures
        forall|i: int|
            0 <= i < trimmed_nonempty(v).len() ==> is_entry(#[trigger] trimmed_nonempty(v)[i], sep),
    decreases v.len(),
{
    if v.len() > 0 {
        let init = v.drop_last();
        assert forall|i: int| 0 <= i < init.len() implies !(#[trigger] init[i]).contains(sep) by {
            assert(init[i] == v[i]);
        }
        lemma_trimmed_nonempty_are_entries(init, sep);
        assert(v[v.len() - 1] == v.last());
        lemma_trim_idempotent(v.last());
        lemma_trim_keeps(v.last(), sep);
        let before = trimmed_nonempty(init);
        let now = trimmed_nonempty(v);
        assert forall|i: int| 0 <= i < now.len() implies is_entry(#[trigger] now[i], sep) by {
            if i < before.len() {
                assert(now[i] == before[i]);
            } else {
                assert(now[i] == trim(v.last()));
            }
        }
    }
}

/// What is read out of a separated list are entries.
pub proof fn lemma_entries(s: Seq<char>, sep: char)
    ensures
        forall|i: int| 0 <= i < entries(s, sep).len() ==> is_entry(#[trigger] entries(s, sep)[i], sep),
{
    lemma_split_parts(s, sep);
    lemma_trimmed_nonempty_are_entries(split(s, sep), sep);
}

/// A numeral can stand in a separated list.
pub proof fn lemma_dec_is_entry(i: int, sep: char)
    requires
        0 <= i,
        !is_digit(sep),
    ensures
        is_entry(dec_int(i), sep),
{
    let d = dec(i as nat);
    lemma_dec(i as nat);
    assert(is_digit(d[0]) && is_digit(d.last()));
    assert(trim_start(d) == d);
    assert(trim_end(d) == d);
    assert forall|k: int| 0 <= k < d.len() implies d[k] != sep by {
        assert(is_digit(d[k]));
    }
}

/// The parts with the separator between each two.
pub open spec fn join(parts: Seq<Seq<char>>, sep: Seq<char>) -> Seq<char>
    decreases parts.len(),
{
    if parts.len() == 0 {
        Seq::empty()
    } else if parts.len() == 1 {
        parts[0]
    } else {
        join(parts.drop_last(), sep) + sep + parts.last()
    }
}

pub fn join_strs(v: &Vec<String>, sep: &str) -> (r: String)
    ensures
        r@ == join(strs(v@), sep@),
{
    let mut out: String = String::new();
    let mut i: usize = 0;
    while i < v.len()
        invariant
            i <= v.len(),
            out@ == join(strs(v@).take(i as int), sep@),
        decreases v.len() - i,
    {
        if i > 0 {
            out.append(sep);
        }
        out.append(v[i].as_str());
        proof {
            let t = strs(v@).take(i + 1);
            assert(t.drop_last() =~= strs(v@).take(i as int));
            assert(t.last() == v@[i as int]@);
        }
        i += 1;
    }
    assert(strs(v@).take(v@.len() as int) =~= strs(v@));
    out
}

/// The lines of a text: each ends at a line feed, which goes, together with a
/// carriage return right before it. A last line without a line feed counts; an
/// empty rest does not.
pub open spec fn lines(s: Seq<char>) -> Seq<Seq<char>>
    decreases s.len(),
{
    let i = find_char(s, '\n');
    if s.len() == 0 {
        Seq::empty()
    } else if 0 <= i < s.len() {
        seq![strip_cr(s.take(i))] + lines(s.skip(i + 1))
    } else {
        seq![s]
    }
}

pub open spec fn strip_cr(s: Seq<char>) -> Seq<char> {
    if s.len() > 0 && s.last() == '\r' {
        s.drop_last()
    } else {
        s
    }
}

pub fn lines_of<'a>(c: &'a [char]) -> (r: Vec<&'a [char]>)
    ensures
        pieces(r@) == lines(c@),
{
    let mut out: Vec<&'a [char]> = Vec::new();
    let mut rest: &'a [char] = c;
    while rest.len() > 0
        invariant
            pieces(out@) + lines(rest@) =~= lines(c@),
        decreases rest@.len(),
    {
        let i: usize = position(rest, '\n');
        let ghost before = out@;
        if i < rest.len() {
            let part = slice_subrange(rest, 0, i);
            let next = slice_subrange(rest, i + 1, rest.len());
            let bare = if i > 0 && rest[i - 1] == '\r' {
                slice_subrange(rest, 0, i - 1)
            } else {
                part
            };
            out.push(bare);
            proof {
                assert(part@ =~= rest@.take(i as int));
                assert(bare@ =~= strip_cr(rest@.take(i as int)));
                assert(next@ =~= rest@.skip(i + 1));
                assert(pieces(out@) =~= pieces(before).push(bare@));
                assert(lines(rest@) =~= seq![bare@] + lines(next@));
            }
            rest = next;
        } else {
            out.push(rest);
            assert(pieces(out@) =~= pieces(before).push(rest@));
            return out;
        }
    }
    out
}

/// Text behind a whole line is read as lines of its own.
pub proof fn lemma_lines_append(a: Seq<char>, b: Seq<char>)
    requires
        a.len() == 0 || a.last() == '\n',
    ensures
        lines(a + b) == lines(a) + lines(b),
    decreases a.len(),
{
    if a.len() == 0 {
        assert(a + b =~= b);
        assert(lines(a) + lines(b) =~= lines(b));
    } else {
        let i = find_char(a, '\n');
        lemma_find_char(a, '\n');
        assert(a[a.len() - 1] == '\n');
        assert(i < a.len());
        let s = a + b;
        assert forall|k: int| 0 <= k < i implies s[k] != '\n' by {
            assert(s[k] == a[k]);
        }
        assert(s[i] == '\n');
        lemma_find_char_is(s, '\n', i);
        assert(s.take(i) =~= a.take(i));
        let rest = a.skip(i + 1);
        assert(s.skip(i + 1) =~= rest + b);
        if rest.len() > 0 {
            assert(rest.last() == a.last());
        }
        lemma_lines_append(rest, b);
        assert(lines(a + b) =~= lines(a) + lines(b));
    }
}

/// A text without a line feed, and one behind it, is one line.
pub proof fn lemma_lines_one(l: Seq<char>)
    requires
        !l.contains('\n'),
    ensures
        lines(l + seq!['\n']) == seq![strip_cr(l)],
{
    let s = l + seq!['\n'];
    assert forall|k: int| 0 <= k < l.len() implies s[k] != '\n' by {
        assert(s[k] == l[k]);
        assert(l.contains(l[k]));
    }
    lemma_find_char_is(s, '\n', l.len() as int);
    assert(s.take(l.len() as int) =~= l);
    assert(s.skip(l.len() as int + 1).len() == 0);
    assert(lines(s.skip(l.len() as int + 1)) =~= Seq::<Seq<char>>::empty());
    assert(lines(s) =~= seq![strip_cr(l)]);
}

/// The lines of a text with their line feeds: put together again they are the
/// text.
pub open spec fn lines_incl(s: Seq<char>) -> Seq<Seq<char>>
    decreases s.len(),
{
    let i = find_char(s, '\n');
    if s.len() == 0 {
        Seq::empty()
    } else if 0 <= i < s.len() {
        seq![s.take(i + 1)] + lines_incl(s.skip(i + 1))
    } else {
        seq![s]
    }
}

pub open spec fn concat(v: Seq<Seq<char>>) -> Seq<char>
    decreases v.len(),
{
    if v.len() == 0 {
        Seq::empty()
    } else {
        concat(v.drop_last()) + v.last()
    }
}

pub fn lines_incl_of<'a>(c: &'a [char]) -> (r: Vec<&'a [char]>)
    ensures
        pieces(r@) == lines_incl(c@),
{
    let mut out: Vec<&'a [char]> = Vec::new();
    let mut rest: &'a [char] = c;
    while rest.len() > 0
        invariant
            pieces(out@) + lines_incl(rest@) =~= lines_incl(c@),
        decreases rest@.len(),
    {
        let i: usize = position(rest, '\n');
        let ghost before = out@;
        if i < rest.len() {
            let part = slice_subrange(rest, 0, i + 1);
            let next = slice_subrange(rest, i + 1, rest.len());
            out.push(part);
            proof {
                assert(part@ =~= rest@.take(i + 1));
                assert(next@ =~= rest@.skip(i + 1));
                assert(pieces(out@) =~= pieces(before).push(part@));
                assert(lines_incl(rest@) =~= seq![part@] + lines_incl(next@));
            }
            rest = next;
        } else {
            out.push(rest);
            assert(pieces(out@) =~= pieces(before).push(rest@));
            return out;
        }
    }
    out
}

/// Appends a range of lines.
pub fn push_pieces(out: &mut String, v: &Vec<&[char]>, lo: usize, hi: usize)
    requires
        lo <= hi <= v@.len(),
    ensures
        final(out)@ == old(out)@ + concat(pieces(v@).subrange(lo as int, hi as int)),
{
    let mut i: usize = lo;
    assert(pieces(v@).subrange(lo as int, lo as int) =~= Seq::<Seq<char>>::empty());
    assert(old(out)@ + concat(Seq::<Seq<char>>::empty()) =~= old(out)@);
    while i < hi
        invariant
            lo <= i <= hi <= v@.len(),
            out@ == old(out)@ + concat(pieces(v@).subrange(lo as int, i as int)),
        decreases hi - i,
    {
        let ghost was = out@;
        push_chars(out, v[i]);
        proof {
            let now = pieces(v@).subrange(lo as int, i + 1);
            assert(now.drop_last() =~= pieces(v@).subrange(lo as int, i as int));
            assert(now.last() == v@[i as int]@);
            assert(out@ =~= old(out)@ + concat(now));
        }
        i += 1;
    }
}

/// Putting two lists of texts together puts their texts together.
pub proof fn lemma_concat_append(a: Seq<Seq<char>>, b: Seq<Seq<char>>)
    ensures
        concat(a + b) == concat(a) + concat(b),
    decreases b.len(),
{
    if b.len() == 0 {
        assert(a + b =~= a);
        assert(concat(a) + concat(b) =~= concat(a));
    } else {
        lemma_concat_append(a, b.drop_last());
        assert((a + b).drop_last() =~= a + b.drop_last());
        assert(concat(a + b) =~= concat(a) + concat(b));
    }
}

/// A text is the concatenation of its lines.
pub proof fn lemma_concat_lines(s: Seq<char>)
    ensures
        concat(lines_incl(s)) == s,
    decreases s.len(),
{
    let i = find_char(s, '\n');
    lemma_find_char(s, '\n');
    if s.len() == 0 {
        assert(concat(lines_incl(s)) =~= s);
    } else if i < s.len() {
        lemma_concat_lines(s.skip(i + 1));
        lemma_concat_append(seq![s.take(i + 1)], lines_incl(s.skip(i + 1)));
        lemma_concat_one(s.take(i + 1));
        assert(s.take(i + 1) + s.skip(i + 1) =~= s);
    } else {
        lemma_concat_one(s);
    }
}

pub proof fn lemma_concat_one(s: Seq<char>)
    ensures
        concat(seq![s]) == s,
{
    assert(seq![s].drop_last() =~= Seq::<Seq<char>>::empty());
    assert(concat(Seq::<Seq<char>>::empty()) =~= Seq::<char>::empty());
    assert(concat(seq![s]) =~= s);
}

/// A text that is empty or ends a line.
pub open spec fn ends_line(s: Seq<char>) -> bool {
    s.len() == 0 || s.last() == '\n'
}

/// Where a text ends a line, what follows has its own lines.
pub proof fn lemma_lines_incl_append(a: Seq<char>, b: Seq<char>)
    requires
        ends_line(a),
    ensures
        lines_incl(a + b) == lines_incl(a) + lines_incl(b),
    decreases a.len(),
{
    if a.len() == 0 {
        assert(a + b =~= b);
        assert(lines_incl(a) + lines_incl(b) =~= lines_incl(b));
    } else {
        let s = a + b;
        let i = find_char(a, '\n');
        lemma_find_char(a, '\n');
        assert(a[a.len() - 1] == '\n');
        assert forall|k: int| 0 <= k < i implies s[k] != '\n' by {
            assert(s[k] == a[k]);
        }
        assert(s[i] == a[i]);
        lemma_find_char_is(s, '\n', i);
        lemma_lines_incl_append(a.skip(i + 1), b);
        assert(s.skip(i + 1) =~= a.skip(i + 1) + b);
        assert(s.take(i + 1) =~= a.take(i + 1));
        assert(lines_incl(s) =~= lines_incl(a) + lines_incl(b));
    }
}

/// A text without a line feed is one line, with or without one at its end.
pub proof fn lemma_lines_incl_one(s: Seq<char>)
    requires
        s.len() > 0,
        forall|k: int| 0 <= k < s.len() - 1 ==> s[k] != '\n',
    ensures
        lines_incl(s) == seq![s],
{
    let i = find_char(s, '\n');
    lemma_find_char(s, '\n');
    if i < s.len() {
        assert(i == s.len() - 1);
        assert(s.take(i + 1) =~= s);
        assert(s.skip(i + 1) =~= Seq::<char>::empty());
        assert(lines_incl(Seq::<char>::empty()) =~= Seq::<Seq<char>>::empty());
        assert(lines_incl(s) =~= seq![s]);
    }
}

/// Every line is not empty, holds no line feed before its end, and every line but
/// the last ends in one.
pub proof fn lemma_lines_incl_shape(s: Seq<char>)
    ensures
        forall|i: int|
            0 <= i < lines_incl(s).len() ==> (#[trigger] lines_incl(s)[i]).len() > 0 && forall|k: int|
                0 <= k < lines_incl(s)[i].len() - 1 ==> lines_incl(s)[i][k] != '\n',
        forall|i: int| 0 <= i < lines_incl(s).len() - 1 ==> (#[trigger] lines_incl(s)[i]).last() == '\n',
        s.len() > 0 ==> lines_incl(s).len() > 0 && lines_incl(s).last().last() == s.last(),
    decreases s.len(),
{
    let i = find_char(s, '\n');
    lemma_find_char(s, '\n');
    if s.len() > 0 && i < s.len() {
        let rest = s.skip(i + 1);
        lemma_lines_incl_shape(rest);
        let ls = lines_incl(s);
        assert forall|j: int| 0 <= j < ls.len() implies (#[trigger] ls[j]).len() > 0 && (forall|k: int|
            0 <= k < ls[j].len() - 1 ==> ls[j][k] != '\n') && (j < ls.len() - 1 ==> ls[j].last()
            == '\n') by {
            if j > 0 {
                assert(ls[j] == lines_incl(rest)[j - 1]);
            } else {
                assert(ls[0] == s.take(i + 1));
            }
        }
        if rest.len() > 0 {
            assert(ls.last() == lines_incl(rest).last());
        } else {
            assert(lines_incl(rest) =~= Seq::<Seq<char>>::empty());
            assert(ls.last() == s.take(i + 1));
        }
    }
}

/// Every occurrence of `from`, from the left and without overlap, becomes `to`.
pub open spec fn replace_all(s: Seq<char>, from: Seq<char>, to: Seq<char>) -> Seq<char>
    decreases s.len(),
{
    match find(s, from) {
        Some(i) => if 0 <= i && from.len() > 0 && i + from.len() <= s.len() {
            s.take(i) + to + replace_all(s.skip(i + from.len()), from, to)
        } else {
            s
        },
        None => s,
    }
}

pub fn replaced_all(c: &[char], from: &str, to: &str) -> (r: String)
    requires
        from@.len() > 0,
    ensures
        r@ == replace_all(c@, from@, to@),
{
    let f = to_chars(from);
    let mut out: String = String::new();
    let mut rest: &[char] = c;
    assert(out@ + replace_all(rest@, from@, to@) =~= replace_all(c@, from@, to@));
    loop
        invariant
            f@ == from@,
            from@.len() > 0,
            out@ + replace_all(rest@, from@, to@) == replace_all(c@, from@, to@),
        decreases rest@.len(),
    {
        let i: usize = match index_of(rest, f.as_slice()) {
            Some(i) => i,
            None => {
                push_chars(&mut out, rest);
                return out;
            },
        };
        let n: usize = rest.len();
        let head = slice_subrange(rest, 0, i);
        let next = slice_subrange(rest, i + f.len(), n);
        let ghost was = out@;
        push_chars(&mut out, head);
        out.append(to);
        proof {
            assert(head@ =~= rest@.take(i as int));
            assert(next@ =~= rest@.skip(i + from@.len()));
            assert(out@ + replace_all(next@, from@, to@) =~= was + replace_all(rest@, from@, to@));
        }
        rest = next;
    }
}

/// Every `from` becomes `to`.
pub open spec fn replace_char(s: Seq<char>, from: char, to: char) -> Seq<char> {
    Seq::new(
        s.len(),
        |i: int|
            if s[i] == from {
                to
            } else {
                s[i]
            },
    )
}

pub fn replaced_char(s: &str, from: char, to: char) -> (r: String)
    ensures
        r@ == replace_char(s@, from, to),
{
    let c = to_chars(s);
    let mut out: String = String::new();
    let mut i: usize = 0;
    while i < c.len()
        invariant
            i <= c.len(),
            c@ == s@,
            out@ == replace_char(s@, from, to).take(i as int),
        decreases c.len() - i,
    {
        if c[i] == from {
            out.push(to);
        } else {
            out.push(c[i]);
        }
        i += 1;
    }
    assert(replace_char(s@, from, to).take(c@.len() as int) =~= replace_char(s@, from, to));
    out
}

/// The positions of a text that hold a given character, as a truth value.
pub fn has_char(c: &[char], x: char) -> (r: bool)
    ensures
        r == c@.contains(x),
{
    let i: usize = position(c, x);
    proof {
        lemma_find_char(c@, x);
        if i < c@.len() {
            assert(c@[i as int] == x);
        }
    }
    i < c.len()
}

// ── Words ────────────────────────────────────────────────────────────────

/// The first white space at or behind a place, or the length.
pub open spec fn space_from(s: Seq<char>, from: int) -> int
    decreases s.len() - from,
{
    if from < 0 || from >= s.len() {
        s.len() as int
    } else if is_space(s[from]) {
        from
    } else {
        space_from(s, from + 1)
    }
}

/// The runs of characters between white space.
pub open spec fn tokens(s: Seq<char>) -> Seq<Seq<char>>
    decreases s.len(),
    via tokens_decreases
{
    let t = trim_start(s);
    let i = space_from(t, 0);
    if t.len() == 0 {
        Seq::empty()
    } else {
        seq![t.take(i)] + tokens(t.skip(i))
    }
}

#[via_fn]
proof fn tokens_decreases(s: Seq<char>) {
    let t = trim_start(s);
    lemma_trim_start_shape(s);
    if t.len() > 0 {
        lemma_space_from(t, 0);
    }
}

proof fn lemma_space_from(s: Seq<char>, from: int)
    requires
        0 <= from <= s.len(),
    ensures
        from <= space_from(s, from) <= s.len(),
        space_from(s, from) < s.len() ==> is_space(s[space_from(s, from)]),
    decreases s.len() - from,
{
    if from < s.len() && !is_space(s[from]) {
        lemma_space_from(s, from + 1);
    }
}

/// The words of a text.
pub fn tokens_of<'a>(c: &'a [char]) -> (r: Vec<&'a [char]>)
    ensures
        pieces(r@) == tokens(c@),
{
    let mut out: Vec<&'a [char]> = Vec::new();
    let mut rest: &'a [char] = c;
    assert(pieces(out@) + tokens(c@) =~= tokens(c@));
    loop
        invariant
            pieces(out@) + tokens(rest@) == tokens(c@),
        decreases rest@.len(),
    {
        let ghost before = out@;
        let t = trimmed_start(rest);
        proof {
            lemma_trim_start_shape(rest@);
        }
        if t.len() == 0 {
            assert(pieces(out@) + tokens(rest@) =~= pieces(out@));
            return out;
        }
        let n: usize = t.len();
        let mut i: usize = 0;
        while i < n && !space(t[i])
            invariant
                i <= n,
                n == t@.len(),
                space_from(t@, 0) == space_from(t@, i as int),
            decreases n - i,
        {
            i += 1;
        }
        let word = slice_subrange(t, 0, i);
        let next = slice_subrange(t, i, n);
        assert(word@ =~= t@.take(i as int));
        assert(next@ =~= t@.skip(i as int));
        out.push(word);
        proof {
            assert(i == space_from(t@, 0));
            assert(pieces(out@) =~= pieces(before).push(word@));
            assert(tokens(rest@) == seq![word@] + tokens(next@));
            assert(pieces(out@) + tokens(next@) =~= pieces(before) + tokens(rest@));
        }
        rest = next;
    }
}

// ── The order of texts ───────────────────────────────────────────────────

/// Whether a text comes before another: the first character in which they differ
/// decides, and a text comes before its own continuations.
pub open spec fn text_less(a: Seq<char>, b: Seq<char>) -> bool
    decreases a.len(),
{
    if b.len() == 0 {
        false
    } else if a.len() == 0 || a[0] < b[0] {
        true
    } else {
        a[0] == b[0] && text_less(a.skip(1), b.skip(1))
    }
}

/// The order of texts is a strict one: of two different texts exactly one comes
/// first.
pub proof fn lemma_text_less_total(a: Seq<char>, b: Seq<char>)
    ensures
        text_less(a, b) ==> a != b && !text_less(b, a),
        a == b || text_less(a, b) || text_less(b, a),
    decreases a.len(),
{
    if a.len() > 0 && b.len() > 0 {
        lemma_text_less_total(a.skip(1), b.skip(1));
        if a[0] == b[0] && a.skip(1) == b.skip(1) {
            assert(a =~= seq![a[0]] + a.skip(1));
            assert(b =~= seq![b[0]] + b.skip(1));
        }
    } else if a.len() == 0 && b.len() == 0 {
        assert(a =~= b);
    }
}

pub proof fn lemma_text_less_transitive(a: Seq<char>, b: Seq<char>, c: Seq<char>)
    requires
        text_less(a, b),
        text_less(b, c),
    ensures
        text_less(a, c),
    decreases a.len(),
{
    if a.len() > 0 && a[0] == b[0] && b[0] == c[0] {
        lemma_text_less_transitive(a.skip(1), b.skip(1), c.skip(1));
    }
}

pub fn less(a: &[char], b: &[char]) -> (r: bool)
    ensures
        r == text_less(a@, b@),
{
    let mut i: usize = 0;
    assert(a@.skip(0) =~= a@);
    assert(b@.skip(0) =~= b@);
    while i < a.len() && i < b.len() && a[i] == b[i]
        invariant
            i <= a.len(),
            i <= b.len(),
            text_less(a@, b@) == text_less(a@.skip(i as int), b@.skip(i as int)),
        decreases a.len() - i,
    {
        assert(a@.skip(i as int).skip(1) =~= a@.skip(i + 1));
        assert(b@.skip(i as int).skip(1) =~= b@.skip(i + 1));
        i += 1;
    }
    if i == b.len() {
        false
    } else if i == a.len() {
        true
    } else {
        a[i] < b[i]
    }
}

pub fn str_less(a: &str, b: &str) -> (r: bool)
    ensures
        r == text_less(a@, b@),
{
    let x = to_chars(a);
    let y = to_chars(b);
    less(x.as_slice(), y.as_slice())
}

// ── Decimal numerals ─────────────────────────────────────────────────────

pub open spec fn digit_char(d: int) -> char {
    (('0' as u8 + d) as u8) as char
}

pub open spec fn digit_value(c: char) -> int {
    c as u8 - '0' as u8
}

/// The decimal numeral of a number, without leading zeros.
pub open spec fn dec(n: nat) -> Seq<char>
    decreases n,
{
    if n < 10 {
        seq![digit_char(n as int)]
    } else {
        dec(n / 10).push(digit_char((n % 10) as int))
    }
}

/// The decimal numeral of an integer, with a minus sign where it is negative.
pub open spec fn dec_int(i: int) -> Seq<char> {
    if i < 0 {
        seq!['-'] + dec((-i) as nat)
    } else {
        dec(i as nat)
    }
}

/// The numeral with zeros in front, up to a width.
pub open spec fn zero_padded(s: Seq<char>, width: nat) -> Seq<char> {
    if s.len() < width {
        Seq::new((width - s.len()) as nat, |i: int| '0') + s
    } else {
        s
    }
}

pub fn push_dec(out: &mut String, n: u64)
    ensures
        final(out)@ == old(out)@ + dec(n as nat),
    decreases n,
{
    if n >= 10 {
        push_dec(out, n / 10);
    }
    let d: u8 = (n % 10) as u8;
    out.push(('0' as u8 + d) as char);
    assert(out@ =~= old(out)@ + dec(n as nat));
}

pub fn push_int(out: &mut String, n: i64)
    ensures
        final(out)@ == old(out)@ + dec_int(n as int),
{
    if n < 0 {
        out.push('-');
        let m: u64 = (0 - (n as i128)) as u64;
        push_dec(out, m);
        assert(out@ =~= old(out)@ + dec_int(n as int));
    } else {
        push_dec(out, n as u64);
    }
}

/// The numeral of an unsigned number.
pub fn dec_str(n: u64) -> (r: String)
    ensures
        r@ == dec(n as nat),
{
    let mut out: String = String::new();
    push_dec(&mut out, n);
    out
}

/// The numeral of a signed number.
pub fn int_str(n: i64) -> (r: String)
    ensures
        r@ == dec_int(n as int),
{
    let mut out: String = String::new();
    push_int(&mut out, n);
    out
}

/// Appends a numeral with zeros in front, up to a width.
pub fn push_padded(out: &mut String, n: u64, width: usize)
    ensures
        final(out)@ == old(out)@ + zero_padded(dec(n as nat), width as nat),
{
    let numeral = dec_str(n);
    let c = to_chars(numeral.as_str());
    let len: usize = c.len();
    let mut i: usize = len;
    while i < width
        invariant
            len <= i,
            i <= width || i == len,
            len == dec(n as nat).len(),
            out@ == old(out)@ + Seq::new((i - len) as nat, |k: int| '0'),
        decreases width - i,
    {
        out.push('0');
        i += 1;
    }
    out.append(numeral.as_str());
    assert(out@ =~= old(out)@ + zero_padded(dec(n as nat), width as nat));
}

pub open spec fn all_digits(s: Seq<char>) -> bool {
    s.len() > 0 && forall|i: int| 0 <= i < s.len() ==> is_digit(s[i])
}

/// The number that a run of digits denotes.
pub open spec fn nat_of(s: Seq<char>) -> nat
    decreases s.len(),
{
    if s.len() == 0 {
        0
    } else {
        (nat_of(s.drop_last()) * 10 + digit_value(s.last())) as nat
    }
}

/// The number that a text denotes as an unsigned numeral: digits, with a plus
/// sign in front or none, no larger than `hi`.
pub open spec fn parse_nat(s: Seq<char>, hi: int) -> Option<int> {
    let body = if s.len() > 0 && s[0] == '+' {
        s.skip(1)
    } else {
        s
    };
    if all_digits(body) && nat_of(body) <= hi {
        Some(nat_of(body) as int)
    } else {
        None
    }
}

/// The number that a text denotes as a signed numeral between `lo` and `hi`.
pub open spec fn parse_signed(s: Seq<char>, lo: int, hi: int) -> Option<int> {
    if s.len() > 0 && s[0] == '-' {
        let body = s.skip(1);
        if all_digits(body) && lo <= -(nat_of(body) as int) {
            Some(-(nat_of(body) as int))
        } else {
            None
        }
    } else {
        parse_nat(s, hi)
    }
}

pub proof fn lemma_nat_of_grows(s: Seq<char>, i: int)
    requires
        0 <= i <= s.len(),
        forall|k: int| 0 <= k < s.len() ==> is_digit(s[k]),
    ensures
        nat_of(s.take(i)) <= nat_of(s),
    decreases s.len() - i,
{
    if i == s.len() {
        assert(s.take(i) =~= s);
    } else {
        lemma_nat_of_grows(s, i + 1);
        assert(s.take(i + 1).drop_last() =~= s.take(i));
        assert(s.take(i + 1).last() == s[i]);
        assert(is_digit(s[i]));
    }
}

/// The number of a run of digits, where it is at most `limit`.
fn digits_value(c: &[char], limit: u64) -> (r: Option<u64>)
    ensures
        match r {
            Some(v) => all_digits(c@) && v == nat_of(c@) && v <= limit,
            None => !all_digits(c@) || nat_of(c@) > limit,
        },
{
    if c.len() == 0 {
        return None;
    }
    let mut i: usize = 0;
    let mut acc: u64 = 0;
    let mut over: bool = false;
    while i < c.len()
        invariant
            i <= c.len(),
            forall|k: int| 0 <= k < i ==> is_digit(c@[k]),
            !over ==> acc == nat_of(c@.take(i as int)) && acc <= limit,
            over ==> nat_of(c@.take(i as int)) > limit,
        decreases c.len() - i,
    {
        if !digit(c[i]) {
            assert(!is_digit(c@[i as int]));
            return None;
        }
        proof {
            assert(c@.take(i + 1).drop_last() =~= c@.take(i as int));
            assert(c@.take(i + 1).last() == c@[i as int]);
        }
        if !over {
            let next: u128 = (acc as u128) * 10 + ((c[i] as u8 - '0' as u8) as u128);
            if next > limit as u128 {
                over = true;
            } else {
                acc = next as u64;
            }
        }
        i += 1;
    }
    assert(c@.take(c@.len() as int) =~= c@);
    if over {
        None
    } else {
        Some(acc)
    }
}

/// Reads an unsigned numeral.
pub fn read_nat(c: &[char], hi: u64) -> (r: Option<u64>)
    ensures
        match r {
            Some(v) => parse_nat(c@, hi as int) == Some(v as int),
            None => parse_nat(c@, hi as int) is None,
        },
{
    if c.len() > 0 && c[0] == '+' {
        let body = slice_subrange(c, 1, c.len());
        assert(body@ =~= c@.skip(1));
        digits_value(body, hi)
    } else {
        digits_value(c, hi)
    }
}

/// Reads a signed numeral.
pub fn read_int(c: &[char], lo: i64, hi: i64) -> (r: Option<i64>)
    requires
        lo <= 0 <= hi,
    ensures
        match r {
            Some(v) => parse_signed(c@, lo as int, hi as int) == Some(v as int),
            None => parse_signed(c@, lo as int, hi as int) is None,
        },
        r is Some ==> lo <= r->0 <= hi,
{
    if c.len() > 0 && c[0] == '-' {
        let body = slice_subrange(c, 1, c.len());
        assert(body@ =~= c@.skip(1));
        let limit: u64 = (0 - (lo as i128)) as u64;
        match digits_value(body, limit) {
            Some(v) => Some((0 - (v as i128)) as i64),
            None => None,
        }
    } else {
        match read_nat(c, hi as u64) {
            Some(v) => Some(v as i64),
            None => None,
        }
    }
}

/// A numeral is made of digits and denotes its number.
pub proof fn lemma_dec(n: nat)
    ensures
        all_digits(dec(n)),
        nat_of(dec(n)) == n,
    decreases n,
{
    if n < 10 {
        assert(dec(n).drop_last() =~= Seq::<char>::empty());
        assert(nat_of(Seq::<char>::empty()) == 0);
    } else {
        lemma_dec(n / 10);
        assert(dec(n).drop_last() =~= dec(n / 10));
        let d = dec(n);
        assert forall|i: int| 0 <= i < d.len() implies is_digit(d[i]) by {
            if i < d.len() - 1 {
                assert(d[i] == dec(n / 10)[i]);
            }
        }
    }
}

/// Reading a written number gives the number back.
pub proof fn lemma_parse_dec_int(i: int, lo: int, hi: int)
    requires
        lo <= i <= hi,
    ensures
        parse_signed(dec_int(i), lo, hi) == Some(i),
{
    if i < 0 {
        lemma_dec((-i) as nat);
        assert(dec_int(i).skip(1) =~= dec((-i) as nat));
    } else {
        lemma_dec(i as nat);
        assert(is_digit(dec(i as nat)[0]));
    }
}

} // verus!
