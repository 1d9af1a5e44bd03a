//! Settings as the section of an INI text that holds them.
//!
//! A section is written from a list of keys and values: a line for each value that is
//! not empty, in the order of the list. The list is in the order of its keys, so that
//! none stands twice.
use vstd::prelude::*;
use vstd::string::*;
use crate::decimal::{decimal_read, parse_decimal};
use crate::ini::{
    assignment, has_marker, header_name, marker_problem, parse_bool, parse_int, read,
    reject_comment_markers, section_at, section_set, step, Keys, SectionView,
};
use crate::ini_laws::{
    all_space, ends_at_header, law_replace_section, lemma_assignment_reads, lemma_plain_line,
    lemma_sections_append, lemma_sections_one, lemma_trim_core, plain_key, plain_pair,
};
use crate::text::{
    dec, dec_int, ends_line, int_str, is_digit, is_space, lemma_dec, lemma_lines_incl_append,
    lemma_lines_incl_one, lemma_parse_dec_int, lemma_text_less_total, lines_incl, opt, parse_signed,
    text_less, trim, trim_end, trim_start,
};

verus! {

// ── The text of a section ────────────────────────────────────────────────

/// The line of a key; none where it has no value.
pub open spec fn pair_line(k: Seq<char>, v: Seq<char>) -> Seq<char> {
    if v.len() == 0 {
        Seq::empty()
    } else {
        assignment(k, v) + "\r\n"@
    }
}

pub open spec fn pair_lines(pairs: Seq<(Seq<char>, Seq<char>)>) -> Seq<char>
    decreases pairs.len(),
{
    if pairs.len() == 0 {
        Seq::empty()
    } else {
        pair_lines(pairs.drop_last()) + pair_line(pairs.last().0, pairs.last().1)
    }
}

/// The section of a name with some keys and values.
pub open spec fn section_of(name: Seq<char>, pairs: Seq<(Seq<char>, Seq<char>)>) -> Seq<char> {
    "["@ + name + "]\r\n"@ + pair_lines(pairs)
}

/// A list of keys and values as texts.
pub open spec fn pair_texts(v: Seq<(&'static str, String)>) -> Seq<(Seq<char>, Seq<char>)> {
    v.map_values(|p: (&'static str, String)| (p.0@, p.1@))
}

/// Writes a section.
pub fn render(name: &str, pairs: &Vec<(&'static str, String)>) -> (r: String)
    ensures
        r@ == section_of(name@, pair_texts(pairs@)),
{
    let mut out: String = "[".to_owned();
    out.append(name);
    out.append("]\r\n");
    let ghost head = out@;
    let ghost all = pair_texts(pairs@);
    let mut i: usize = 0;
    assert(all.take(0) =~= Seq::<(Seq<char>, Seq<char>)>::empty());
    assert(out@ =~= head + pair_lines(all.take(0)));
    while i < pairs.len()
        invariant
            i <= pairs@.len(),
            all == pair_texts(pairs@),
            out@ == head + pair_lines(all.take(i as int)),
        decreases pairs.len() - i,
    {
        let ghost before = out@;
        proof {
            assert(all.take(i + 1).drop_last() =~= all.take(i as int));
            assert(all.take(i + 1).last() == (pairs@[i as int].0@, pairs@[i as int].1@));
        }
        if !pairs[i].1.as_str().is_empty() {
            out.append(pairs[i].0);
            out.append(" = ");
            out.append(pairs[i].1.as_str());
            out.append("\r\n");
        }
        assert(out@ =~= before + pair_line(pairs@[i as int].0@, pairs@[i as int].1@));
        assert(out@ =~= head + pair_lines(all.take(i + 1)));
        i += 1;
    }
    assert(all.take(pairs@.len() as int) =~= all);
    out
}

/// What the first value is told that would reload cut short, if there is one.
pub open spec fn problem_of(pairs: Seq<(Seq<char>, Seq<char>)>) -> Option<Seq<char>>
    decreases pairs.len(),
{
    if pairs.len() == 0 {
        None
    } else if problem_of(pairs.drop_last()) is Some {
        problem_of(pairs.drop_last())
    } else if has_marker(pairs.last().1) {
        Some(marker_problem(pairs.last().0))
    } else {
        None
    }
}

/// Looks for a value that would reload cut short.
pub fn problem_in(pairs: &Vec<(&'static str, String)>) -> (r: Option<String>)
    ensures
        opt(r) == problem_of(pair_texts(pairs@)),
{
    let ghost all = pair_texts(pairs@);
    let mut i: usize = 0;
    assert(all.take(0) =~= Seq::<(Seq<char>, Seq<char>)>::empty());
    while i < pairs.len()
        invariant
            i <= pairs@.len(),
            all == pair_texts(pairs@),
            problem_of(all.take(i as int)) is None,
        decreases pairs.len() - i,
    {
        proof {
            assert(all.take(i + 1).drop_last() =~= all.take(i as int));
            assert(all.take(i + 1).last() == (pairs@[i as int].0@, pairs@[i as int].1@));
        }
        if let Err(e) = reject_comment_markers(pairs[i].0, pairs[i].1.as_str()) {
            proof {
                lemma_problem_prefix(all, i + 1);
            }
            return Some(e);
        }
        i += 1;
    }
    assert(all.take(pairs@.len() as int) =~= all);
    None
}

proof fn lemma_problem_prefix(pairs: Seq<(Seq<char>, Seq<char>)>, n: int)
    requires
        0 <= n <= pairs.len(),
        problem_of(pairs.take(n)) is Some,
    ensures
        problem_of(pairs) == problem_of(pairs.take(n)),
    decreases pairs.len() - n,
{
    if n == pairs.len() {
        assert(pairs.take(n) =~= pairs);
    } else {
        assert(pairs.take(n + 1).drop_last() =~= pairs.take(n));
        lemma_problem_prefix(pairs, n + 1);
    }
}

// ── The keys of a section ────────────────────────────────────────────────

/// The value of a key; the empty text where it has none.
pub open spec fn lookup(m: Map<Seq<char>, Seq<char>>, k: Seq<char>) -> Seq<char> {
    if m.dom().contains(k) {
        m[k]
    } else {
        Seq::empty()
    }
}

pub open spec fn number_of(s: Seq<char>) -> Option<int> {
    parse_signed(trim(s), i32::MIN as int, i32::MAX as int)
}

pub open spec fn flag_of(s: Seq<char>) -> Option<bool> {
    if trim(s) == "true"@ {
        Some(true)
    } else if trim(s) == "false"@ {
        Some(false)
    } else {
        None
    }
}

/// Whether a number is the one that a text stands for.
pub open spec fn is_number(v: Option<i32>, s: Seq<char>) -> bool {
    match v {
        Some(n) => number_of(s) == Some(n as int),
        None => number_of(s) is None,
    }
}

/// The text of a key.
pub fn text_at(keys: &Keys, k: &str) -> (r: String)
    ensures
        r@ == lookup(keys@, k@),
{
    match keys.get(k) {
        Some(v) => v.to_owned(),
        None => String::new(),
    }
}

/// The whole number of a key.
pub fn number_at(keys: &Keys, k: &str) -> (r: Option<i32>)
    ensures
        is_number(r, lookup(keys@, k@)),
{
    let t = text_at(keys, k);
    parse_int(t.as_str())
}

/// The truth value of a key.
pub fn flag_at(keys: &Keys, k: &str) -> (r: Option<bool>)
    ensures
        r == flag_of(lookup(keys@, k@)),
{
    let t = text_at(keys, k);
    parse_bool(t.as_str())
}

/// The decimal number of a key.
pub fn decimal_at(keys: &Keys, k: &str) -> (r: Option<String>)
    ensures
        opt(r) == decimal_read(lookup(keys@, k@)),
{
    let t = text_at(keys, k);
    parse_decimal(t.as_str())
}

// ── Values as text ───────────────────────────────────────────────────────

/// A number that may be absent.
pub open spec fn number_shown(v: Option<i32>) -> Seq<char> {
    match v {
        Some(n) => dec_int(n as int),
        None => Seq::empty(),
    }
}

/// A truth value that may be absent.
pub open spec fn flag_shown(v: Option<bool>) -> Seq<char> {
    match v {
        Some(b) => if b {
            "true"@
        } else {
            "false"@
        },
        None => Seq::empty(),
    }
}

/// A text that may be absent.
pub open spec fn text_shown(v: Option<String>) -> Seq<char> {
    match v {
        Some(s) => s@,
        None => Seq::empty(),
    }
}

pub fn number_value(v: Option<i32>) -> (r: String)
    ensures
        r@ == number_shown(v),
{
    match v {
        Some(n) => int_str(n as i64),
        None => String::new(),
    }
}

pub fn flag_value(v: Option<bool>) -> (r: String)
    ensures
        r@ == flag_shown(v),
{
    match v {
        Some(b) => if b {
            "true".to_owned()
        } else {
            "false".to_owned()
        },
        None => String::new(),
    }
}

pub fn text_value(v: &Option<String>) -> (r: String)
    ensures
        r@ == text_shown(*v),
{
    match v {
        Some(s) => s.clone(),
        None => String::new(),
    }
}

/// A number that is shown reads as itself.
pub proof fn lemma_number_reads(v: Option<i32>)
    ensures
        number_of(number_shown(v)) == match v {
            Some(n) => Some(n as int),
            None => None,
        },
{
    match v {
        Some(n) => {
            let s = dec_int(n as int);
            lemma_parse_dec_int(n as int, i32::MIN as int, i32::MAX as int);
            if n < 0 {
                let d = dec((-(n as int)) as nat);
                lemma_dec((-(n as int)) as nat);
                assert(is_digit(d[d.len() - 1]));
                assert(s.last() == d.last());
            } else {
                lemma_dec(n as nat);
                assert(is_digit(s[0]) && is_digit(s[s.len() - 1]));
            }
            assert(trim_start(s) == s);
            assert(trim_end(s) == s);
        },
        None => {},
    }
}

/// A truth value that is shown reads as itself.
pub proof fn lemma_flag_reads(v: Option<bool>)
    ensures
        flag_of(flag_shown(v)) == v,
{
    reveal_strlit("true");
    reveal_strlit("false");
    let t = "true"@;
    let f = "false"@;
    assert(t.len() == 4 && f.len() == 5);
    assert(trim_start(t) == t && trim_end(t) == t);
    assert(trim_start(f) == f && trim_end(f) == f);
}

// ── Reading back ─────────────────────────────────────────────────────────

/// A value that can stand on a line: the reader gives it back.
pub open spec fn writable(v: Seq<char>) -> bool {
    trim(v) == v && !has_marker(v) && !v.contains('\n')
}

/// A list whose keys can stand on lines, in their order, and whose values can too.
pub open spec fn well_listed(pairs: Seq<(Seq<char>, Seq<char>)>) -> bool {
    &&& forall|i: int| 0 <= i < pairs.len() ==> plain_key((#[trigger] pairs[i]).0)
    &&& forall|i: int| 0 <= i < pairs.len() ==> writable((#[trigger] pairs[i]).1)
    &&& forall|i: int, k: int|
        0 <= i < k < pairs.len() ==> text_less((#[trigger] pairs[i]).0, (#[trigger] pairs[k]).0)
}

/// The keys that a reader finds in the lines of a list.
pub open spec fn keys_in(pairs: Seq<(Seq<char>, Seq<char>)>) -> Map<Seq<char>, Seq<char>>
    decreases pairs.len(),
{
    if pairs.len() == 0 {
        Map::empty()
    } else if pairs.last().1.len() == 0 {
        keys_in(pairs.drop_last())
    } else {
        keys_in(pairs.drop_last()).insert(pairs.last().0, pairs.last().1)
    }
}

proof fn lemma_listed_prefix(pairs: Seq<(Seq<char>, Seq<char>)>)
    requires
        well_listed(pairs),
        pairs.len() > 0,
    ensures
        well_listed(pairs.drop_last()),
{
    let init = pairs.drop_last();
    assert forall|i: int| 0 <= i < init.len() implies plain_key((#[trigger] init[i]).0) && writable(
        init[i].1,
    ) by {
        assert(init[i] == pairs[i]);
    }
    assert forall|i: int, k: int| 0 <= i < k < init.len() implies text_less(
        (#[trigger] init[i]).0,
        (#[trigger] init[k]).0,
    ) by {
        assert(init[i] == pairs[i] && init[k] == pairs[k]);
    }
}

/// Every key of a list is found with its value.
pub proof fn lemma_lookup(pairs: Seq<(Seq<char>, Seq<char>)>, i: int)
    requires
        well_listed(pairs),
        0 <= i < pairs.len(),
    ensures
        lookup(keys_in(pairs), pairs[i].0) == pairs[i].1,
    decreases pairs.len(),
{
    let init = pairs.drop_last();
    let n = pairs.len() - 1;
    lemma_listed_prefix(pairs);
    if i < n {
        assert(init[i] == pairs[i]);
        lemma_lookup(init, i);
        lemma_text_less_total(pairs[i].0, pairs[n].0);
    } else {
        lemma_not_found(init, pairs[n].0);
        assert forall|k: int| 0 <= k < init.len() implies (#[trigger] init[k]).0 != pairs[n].0 by {
            lemma_text_less_total(pairs[k].0, pairs[n].0);
        }
    }
}

proof fn lemma_not_found(pairs: Seq<(Seq<char>, Seq<char>)>, k: Seq<char>)
    ensures
        (forall|i: int| 0 <= i < pairs.len() ==> (#[trigger] pairs[i]).0 != k) ==> !keys_in(
            pairs,
        ).dom().contains(k),
    decreases pairs.len(),
{
    if pairs.len() > 0 {
        let init = pairs.drop_last();
        lemma_not_found(init, k);
        if forall|i: int| 0 <= i < pairs.len() ==> (#[trigger] pairs[i]).0 != k {
            assert forall|i: int| 0 <= i < init.len() implies (#[trigger] init[i]).0 != k by {
                assert(init[i] == pairs[i]);
            }
            assert(pairs[pairs.len() - 1].0 != k);
        }
    }
}

/// A section that was written reads back: the reader sees that section alone, with
/// the keys and values of the list.
pub proof fn law_section_reads_back(name: Seq<char>, pairs: Seq<(Seq<char>, Seq<char>)>)
    requires
        well_listed(pairs),
        !name.contains('\n'),
    ensures
        read(section_of(name, pairs)) == seq![SectionView { id: trim(name), keys: keys_in(pairs) }],
        forall|i: int|
            0 <= i < pairs.len() ==> lookup(keys_in(pairs), (#[trigger] pairs[i]).0) == pairs[i].1,
{
    lemma_read(name, pairs);
    assert forall|i: int| 0 <= i < pairs.len() implies lookup(keys_in(pairs), (#[trigger] pairs[i]).0)
        == pairs[i].1 by {
        lemma_lookup(pairs, i);
    }
}

/// The line of a header opens a section.
proof fn lemma_head(name: Seq<char>)
    requires
        !name.contains('\n'),
    ensures
        ({
            let line = "["@ + name + "]\r\n"@;
            &&& ends_line(line)
            &&& lines_incl(line) == seq![line]
            &&& header_name(line) == Some(trim(name))
        }),
{
    reveal_strlit("\r\n");
    reveal_strlit("[");
    reveal_strlit("]\r\n");
    let crlf = "\r\n"@;
    assert(all_space(crlf));
    let line = "["@ + name + "]\r\n"@;
    let core = "["@ + name + seq![']'];
    let none = Seq::<char>::empty();
    assert(line =~= none + core + crlf);
    lemma_trim_core(none, core, crlf);
    assert(core.subrange(1, core.len() - 1) =~= name);
    assert forall|i: int| 0 <= i < line.len() - 1 implies line[i] != '\n' by {
        if 1 <= i < core.len() - 1 {
            assert(line[i] == name[i - 1]);
            assert(name.contains(name[i - 1]));
        }
    }
    lemma_lines_incl_one(line);
}

proof fn lemma_read(name: Seq<char>, pairs: Seq<(Seq<char>, Seq<char>)>)
    requires
        well_listed(pairs),
        !name.contains('\n'),
    ensures
        read(section_of(name, pairs)) == seq![SectionView { id: trim(name), keys: keys_in(pairs) }],
        ends_line(section_of(name, pairs)),
    decreases pairs.len(),
{
    reveal_strlit("\r\n");
    let e = Seq::<SectionView>::empty();
    let crlf = "\r\n"@;
    assert(all_space(crlf));
    if pairs.len() == 0 {
        lemma_head(name);
        let line = "["@ + name + "]\r\n"@;
        assert(section_of(name, pairs) =~= line);
        lemma_sections_one(e, line);
        assert(step(e, line) =~= seq![SectionView { id: trim(name), keys: keys_in(pairs) }]);
    } else {
        lemma_listed_prefix(pairs);
        let init = pairs.drop_last();
        lemma_read(name, init);
        let front = section_of(name, init);
        let (k, v) = pairs.last();
        assert(pairs[pairs.len() - 1] == (k, v));
        if v.len() == 0 {
            assert(section_of(name, pairs) =~= front);
        } else {
            let line = assignment(k, v) + crlf;
            assert(plain_pair(k, v));
            lemma_assignment_reads(k, v, crlf);
            lemma_plain_line(k, v, crlf);
            lemma_lines_incl_one(line);
            assert(section_of(name, pairs) =~= front + line);
            lemma_lines_incl_append(front, line);
            lemma_sections_append(e, lines_incl(front), seq![line]);
            lemma_sections_one(read(front), line);
            assert(step(read(front), line) =~= seq![
                SectionView { id: trim(name), keys: keys_in(pairs) },
            ]);
            assert((front + line).last() == crlf.last());
        }
    }
}

/// A file with a section written into it: the reader sees that section with the keys
/// and values of the list, in the place it had or behind the others, which are as they
/// were.
pub proof fn law_section_is_saved(content: Seq<char>, name: Seq<char>, pairs: Seq<(Seq<char>, Seq<char>)>)
    requires
        well_listed(pairs),
        !name.contains('\n'),
        ends_at_header(content, name),
    ensures
        ({
            let at = section_at(read(content), name);
            let new = seq![SectionView { id: trim(name), keys: keys_in(pairs) }];
            read(section_set(content, name, section_of(name, pairs))) == if at >= 0 {
                read(content).take(at) + new + read(content).skip(at + 1)
            } else {
                read(content) + new
            }
        }),
{
    lemma_read(name, pairs);
    lemma_head(name);
    let line = "["@ + name + "]\r\n"@;
    lemma_lines_incl_append(line, pair_lines(pairs));
    assert(lines_incl(section_of(name, pairs))[0] == line);
    law_replace_section(content, name, section_of(name, pairs));
}

// ── Keys in their order ──────────────────────────────────────────────────

/// A word of letters and hyphens.
pub open spec fn is_word(s: Seq<char>) -> bool {
    &&& s.len() > 0
    &&& forall|i: int|
        0 <= i < s.len() ==> ('a' <= #[trigger] s[i] <= 'z') || ('A' <= s[i] <= 'Z') || s[i] == '-'
}

/// A word can be a key.
pub proof fn lemma_word_is_key(k: Seq<char>)
    requires
        is_word(k),
    ensures
        plain_key(k),
{
    assert(!is_space(k[0]));
    assert(!is_space(k[k.len() - 1]));
    assert(trim_start(k) == k);
    assert(trim_end(k) == k);
}

/// A text comes before another that is like it up to a place and goes on there, or
/// has a later character there.
pub proof fn lemma_less_at(a: Seq<char>, b: Seq<char>, n: int)
    requires
        0 <= n <= a.len(),
        n < b.len(),
        forall|i: int| 0 <= i < n ==> #[trigger] a[i] == b[i],
        n < a.len() ==> a[n] < b[n],
    ensures
        text_less(a, b),
    decreases n,
{
    if n > 0 {
        assert(a[0] == b[0]);
        assert forall|i: int| 0 <= i < n - 1 implies #[trigger] a.skip(1)[i] == b.skip(1)[i] by {
            assert(a[i + 1] == b[i + 1]);
        }
        lemma_less_at(a.skip(1), b.skip(1), n - 1);
    }
}

/// Values are refused exactly where one of them would reload cut short, and the first one
/// is named.
pub proof fn law_cut_values_are_refused(pairs: Seq<(Seq<char>, Seq<char>)>)
    ensures
        problem_of(pairs) is None <==> forall|i: int|
            0 <= i < pairs.len() ==> !has_marker((#[trigger] pairs[i]).1),
    decreases pairs.len(),
{
    if pairs.len() > 0 {
        let init = pairs.drop_last();
        law_cut_values_are_refused(init);
        assert(pairs[pairs.len() - 1] == pairs.last());
        if problem_of(pairs) is None {
            assert forall|i: int| 0 <= i < pairs.len() implies !has_marker((#[trigger] pairs[i]).1) by {
                if i < init.len() {
                    assert(init[i] == pairs[i]);
                }
            }
        }
        if forall|i: int| 0 <= i < pairs.len() ==> !has_marker((#[trigger] pairs[i]).1) {
            assert forall|i: int| 0 <= i < init.len() implies !has_marker((#[trigger] init[i]).1) by {
                assert(init[i] == pairs[i]);
            }
        }
    }
}

} // verus!
