//! What reading gives back of writing, for the INI texts of [`crate::ini`].
//!
//! The laws say, for each writer, what the reader sees afterwards: the section
//! that was written has what was written, and every other section is as it was.
use vstd::prelude::*;
use crate::ini::{
    assignment, body_with_key, end_of, eol_of, has_marker, header_from, header_name, is_header_of,
    is_marker, key_from, key_line, key_set, law_guard_matches_reader, opening_from, opens_section,
    read, renamed_line, section_at, section_deleted, section_renamed, section_set, section_text,
    sections_from, sets_key, step, with_eol, without_line_ends, SectionView,
};
use crate::text::{
    concat, ends_line, find, find_char, is_space, lemma_concat_append, lemma_concat_lines,
    lemma_concat_one, lemma_find_char, lemma_find_char_is, lemma_find_from, lemma_lines_incl_append,
    lemma_lines_incl_one, lemma_lines_incl_shape, lemma_trim_end_shape, lemma_trim_start_shape,
    lines_incl, lower, lower_all, replace_all, trim, trim_end, trim_start,
};

verus! {

// ── Lines and white space ────────────────────────────────────────────────

pub open spec fn all_space(s: Seq<char>) -> bool {
    forall|i: int| 0 <= i < s.len() ==> is_space(#[trigger] s[i])
}

proof fn lemma_trim_start_append(l: Seq<char>, w: char)
    requires
        is_space(w),
    ensures
        trim_start(l + seq![w]) == if trim_start(l).len() == 0 {
            Seq::<char>::empty()
        } else {
            trim_start(l) + seq![w]
        },
    decreases l.len(),
{
    let s = l + seq![w];
    if l.len() == 0 {
        assert(s.skip(1) =~= Seq::<char>::empty());
        assert(trim_start(Seq::<char>::empty()) =~= Seq::<char>::empty());
    } else if is_space(l[0]) {
        assert(s[0] == l[0]);
        assert(s.skip(1) =~= l.skip(1) + seq![w]);
        lemma_trim_start_append(l.skip(1), w);
    } else {
        assert(s[0] == l[0]);
    }
}

/// White space at the end of a line does not matter to the reader.
proof fn lemma_trim_append(l: Seq<char>, w: char)
    requires
        is_space(w),
    ensures
        trim(l + seq![w]) == trim(l),
{
    lemma_trim_start_append(l, w);
    if trim_start(l).len() == 0 {
        assert(trim_start(l) =~= Seq::<char>::empty());
    } else {
        let t = trim_start(l) + seq![w];
        assert(t.last() == w);
        assert(t.drop_last() =~= trim_start(l));
    }
}

proof fn lemma_trim_append_all(l: Seq<char>, w: Seq<char>)
    requires
        all_space(w),
    ensures
        trim(l + w) == trim(l),
    decreases w.len(),
{
    if w.len() == 0 {
        assert(l + w =~= l);
    } else {
        let init = w.drop_last();
        assert forall|i: int| 0 <= i < init.len() implies is_space(#[trigger] init[i]) by {
            assert(init[i] == w[i]);
        }
        lemma_trim_append_all(l, init);
        assert(is_space(w[w.len() - 1]));
        lemma_trim_append(l + init, w.last());
        assert(l + init + seq![w.last()] =~= l + w);
    }
}

proof fn lemma_trim_start_prepend(w: Seq<char>, l: Seq<char>)
    requires
        all_space(w),
    ensures
        trim_start(w + l) == trim_start(l),
    decreases w.len(),
{
    if w.len() == 0 {
        assert(w + l =~= l);
    } else {
        assert(is_space(w[0]));
        assert((w + l)[0] == w[0]);
        assert((w + l).skip(1) =~= w.skip(1) + l);
        assert forall|i: int| 0 <= i < w.skip(1).len() implies is_space(#[trigger] w.skip(1)[i]) by {
            assert(w.skip(1)[i] == w[i + 1]);
        }
        lemma_trim_start_prepend(w.skip(1), l);
    }
}

/// A text between non-blank characters is its own trimming, whatever white space
/// stands around it.
pub proof fn lemma_trim_core(a: Seq<char>, core: Seq<char>, b: Seq<char>)
    requires
        all_space(a),
        all_space(b),
        core.len() == 0 || (!is_space(core[0]) && !is_space(core.last())),
    ensures
        trim(a + core + b) == core,
{
    lemma_trim_append_all(a + core, b);
    lemma_trim_start_prepend(a, core);
    assert(trim_start(core) == core);
    assert(trim_end(core) == core);
}

proof fn lemma_header_opens(line: Seq<char>)
    requires
        header_name(line) is Some,
    ensures
        opens_section(line),
{
    lemma_trim_end_shape(trim_start(line));
    assert(trim(line)[0] == trim_start(line)[0]);
}

// ── Folding lines into sections ──────────────────────────────────────────

pub proof fn lemma_sections_append(acc: Seq<SectionView>, a: Seq<Seq<char>>, b: Seq<Seq<char>>)
    ensures
        sections_from(acc, a + b) == sections_from(sections_from(acc, a), b),
    decreases b.len(),
{
    if b.len() == 0 {
        assert(a + b =~= a);
    } else {
        lemma_sections_append(acc, a, b.drop_last());
        assert((a + b).drop_last() =~= a + b.drop_last());
        assert((a + b).last() == b.last());
    }
}

pub proof fn lemma_sections_one(acc: Seq<SectionView>, line: Seq<char>)
    ensures
        sections_from(acc, seq![line]) == step(acc, line),
{
    assert(seq![line].drop_last() =~= Seq::<Seq<char>>::empty());
    assert(sections_from(acc, Seq::<Seq<char>>::empty()) == acc);
}

/// From a header on, what was read before stays as it was.
proof fn lemma_sections_after_header(acc: Seq<SectionView>, ls: Seq<Seq<char>>)
    requires
        ls.len() > 0,
        header_name(ls[0]) is Some,
    ensures
        sections_from(acc, ls) == acc + sections_from(Seq::empty(), ls),
        sections_from(Seq::empty(), ls).len() > 0,
    decreases ls.len(),
{
    let init = ls.drop_last();
    let e = Seq::<SectionView>::empty();
    if ls.len() == 1 {
        assert(init =~= Seq::<Seq<char>>::empty());
        assert(sections_from(acc, init) == acc);
        assert(sections_from(e, init) == e);
        assert(ls.last() == ls[0]);
        assert(sections_from(acc, ls) =~= acc + sections_from(e, ls));
    } else {
        assert(init[0] == ls[0]);
        lemma_sections_after_header(acc, init);
        let t = sections_from(e, init);
        assert((acc + t).last() == t.last());
        assert((acc + t).drop_last() =~= acc + t.drop_last());
        assert(step(acc + t, ls.last()) =~= acc + step(t, ls.last()));
    }
}

/// White space at the end of a text does not matter to the reader.
proof fn lemma_space_char(acc: Seq<SectionView>, t: Seq<char>, w: char)
    requires
        is_space(w),
    ensures
        sections_from(acc, lines_incl(t + seq![w])) == sections_from(acc, lines_incl(t)),
{
    let s = t + seq![w];
    if ends_line(t) {
        lemma_lines_incl_append(t, seq![w]);
        lemma_lines_incl_one(seq![w]);
        lemma_sections_append(acc, lines_incl(t), seq![seq![w]]);
        lemma_sections_one(sections_from(acc, lines_incl(t)), seq![w]);
        let e = Seq::<char>::empty();
        lemma_trim_append(e, w);
        assert(e + seq![w] =~= seq![w]);
        assert(trim(e) =~= e);
    } else {
        let ls = lines_incl(t);
        lemma_lines_incl_shape(t);
        lemma_concat_lines(t);
        let init = ls.drop_last();
        let last = ls.last();
        assert(concat(init) + last == t);
        lemma_concat_ends(init);
        assert(concat(init) + (last + seq![w]) =~= s);
        lemma_lines_incl_append(concat(init), last + seq![w]);
        lemma_lines_incl_append(concat(init), last);
        assert(last == ls[ls.len() - 1]);
        lemma_lines_incl_one(last);
        assert forall|k: int| 0 <= k < (last + seq![w]).len() - 1 implies (last + seq![w])[k]
            != '\n' by {
            if k < last.len() - 1 {
                assert(last[k] != '\n');
            } else {
                assert(last[k] == t.last());
            }
        }
        lemma_lines_incl_one(last + seq![w]);
        let p = lines_incl(concat(init));
        lemma_sections_append(acc, p, seq![last]);
        lemma_sections_append(acc, p, seq![last + seq![w]]);
        lemma_sections_one(sections_from(acc, p), last);
        lemma_sections_one(sections_from(acc, p), last + seq![w]);
        lemma_trim_append(last, w);
    }
}

/// A list of lines that all end in a line feed ends a line.
proof fn lemma_concat_ends(v: Seq<Seq<char>>)
    requires
        forall|i: int| 0 <= i < v.len() ==> (#[trigger] v[i]).len() > 0 && v[i].last() == '\n',
    ensures
        ends_line(concat(v)),
{
    if v.len() > 0 {
        assert(v.last() == v[v.len() - 1]);
        assert(concat(v).last() == v.last().last());
    }
}

proof fn lemma_space_tail(acc: Seq<SectionView>, t: Seq<char>, w: Seq<char>)
    requires
        all_space(w),
    ensures
        sections_from(acc, lines_incl(t + w)) == sections_from(acc, lines_incl(t)),
    decreases w.len(),
{
    if w.len() == 0 {
        assert(t + w =~= t);
    } else {
        let init = w.drop_last();
        assert forall|i: int| 0 <= i < init.len() implies is_space(#[trigger] init[i]) by {
            assert(init[i] == w[i]);
        }
        lemma_space_tail(acc, t, init);
        assert(is_space(w[w.len() - 1]));
        lemma_space_char(acc, t + init, w.last());
        assert(t + init + seq![w.last()] =~= t + w);
    }
}

proof fn lemma_eol(content: Seq<char>)
    ensures
        all_space(eol_of(content)),
        ends_line(eol_of(content)),
        eol_of(content).len() > 0,
        eol_of(content).last() == '\n',
        all_space("\n"@),
        all_space("\r\n"@),
        "\n"@.len() > 0 && "\n"@.last() == '\n',
        "\r\n"@.len() > 0 && "\r\n"@.last() == '\n',
        forall|k: int| 0 <= k < eol_of(content).len() - 1 ==> eol_of(content)[k] != '\n',
{
    reveal_strlit("\n");
    reveal_strlit("\r\n");
}

proof fn lemma_line_ends_are_space(s: Seq<char>)
    ensures
        without_line_ends(s).len() <= s.len(),
        without_line_ends(s) == s.take(without_line_ends(s).len() as int),
        all_space(s.skip(without_line_ends(s).len() as int)),
    decreases s.len(),
{
    if s.len() > 0 && (s.last() == '\r' || s.last() == '\n') {
        let init = s.drop_last();
        lemma_line_ends_are_space(init);
        let n = without_line_ends(s).len() as int;
        assert(init.take(n) =~= s.take(n));
        assert forall|i: int| 0 <= i < s.skip(n).len() implies is_space(#[trigger] s.skip(n)[i]) by {
            if i < init.skip(n).len() {
                assert(s.skip(n)[i] == init.skip(n)[i]);
            }
        }
    } else {
        assert(s.take(s.len() as int) =~= s);
    }
}

/// The lines of lines put together are those lines.
proof fn lemma_lines_of_concat(v: Seq<Seq<char>>)
    requires
        forall|i: int|
            0 <= i < v.len() ==> (#[trigger] v[i]).len() > 0 && forall|k: int|
                0 <= k < v[i].len() - 1 ==> v[i][k] != '\n',
        forall|i: int| 0 <= i < v.len() - 1 ==> (#[trigger] v[i]).last() == '\n',
    ensures
        lines_incl(concat(v)) == v,
    decreases v.len(),
{
    if v.len() == 0 {
        assert(lines_incl(concat(v)) =~= v);
    } else {
        let init = v.drop_last();
        assert forall|i: int| 0 <= i < init.len() implies (#[trigger] init[i]).len() > 0 && (forall|
            k: int,
        |
            0 <= k < init[i].len() - 1 ==> init[i][k] != '\n') && init[i].last() == '\n' by {
            assert(init[i] == v[i]);
        }
        lemma_lines_of_concat(init);
        lemma_concat_ends(init);
        lemma_lines_incl_append(concat(init), v.last());
        assert(v.last() == v[v.len() - 1]);
        lemma_lines_incl_one(v.last());
        assert(init + seq![v.last()] =~= v);
    }
}

/// A range of the lines of a text, put together, has those lines; and it ends a
/// line unless it reaches the end of the text.
proof fn lemma_lines_range(s: Seq<char>, lo: int, hi: int)
    requires
        0 <= lo <= hi <= lines_incl(s).len(),
    ensures
        lines_incl(concat(lines_incl(s).subrange(lo, hi))) == lines_incl(s).subrange(lo, hi),
        hi < lines_incl(s).len() ==> ends_line(concat(lines_incl(s).subrange(lo, hi))),
{
    let v = lines_incl(s).subrange(lo, hi);
    lemma_lines_incl_shape(s);
    assert forall|i: int| 0 <= i < v.len() implies (#[trigger] v[i]).len() > 0 && (forall|k: int|
        0 <= k < v[i].len() - 1 ==> v[i][k] != '\n') && (i < v.len() - 1 || hi < lines_incl(s).len()
        ==> v[i].last() == '\n') by {
        assert(v[i] == lines_incl(s)[lo + i]);
    }
    lemma_lines_of_concat(v);
    if hi < lines_incl(s).len() {
        lemma_concat_ends(v);
    }
}

// ── Where a section stands ───────────────────────────────────────────────

pub proof fn lemma_header_from(ls: Seq<Seq<char>>, name: Seq<char>, from: int)
    requires
        0 <= from <= ls.len(),
    ensures
        from <= header_from(ls, name, from) <= ls.len(),
        forall|i: int|
            from <= i < header_from(ls, name, from) ==> !is_header_of(#[trigger] ls[i], name),
        header_from(ls, name, from) < ls.len() ==> is_header_of(
            ls[header_from(ls, name, from)],
            name,
        ),
    decreases ls.len() - from,
{
    if from < ls.len() && !is_header_of(ls[from], name) {
        lemma_header_from(ls, name, from + 1);
    }
}

pub proof fn lemma_opening_from(ls: Seq<Seq<char>>, from: int)
    requires
        0 <= from <= ls.len(),
    ensures
        from <= opening_from(ls, from) <= ls.len(),
        forall|i: int| from <= i < opening_from(ls, from) ==> !opens_section(#[trigger] ls[i]),
        opening_from(ls, from) < ls.len() ==> opens_section(ls[opening_from(ls, from)]),
    decreases ls.len() - from,
{
    if from < ls.len() && !opens_section(ls[from]) {
        lemma_opening_from(ls, from + 1);
    }
}

/// Lines without a header of the name give sections of other names only.
proof fn lemma_no_header_no_section(ls: Seq<Seq<char>>, name: Seq<char>)
    requires
        forall|i: int| 0 <= i < ls.len() ==> !is_header_of(#[trigger] ls[i], name),
    ensures
        section_at(sections_from(Seq::empty(), ls), name) < 0,
        forall|i: int|
            0 <= i < sections_from(Seq::empty(), ls).len() ==> lower_all(
                (#[trigger] sections_from(Seq::empty(), ls)[i]).id,
            ) != lower_all(name),
    decreases ls.len(),
{
    let e = Seq::<SectionView>::empty();
    if ls.len() > 0 {
        let init = ls.drop_last();
        assert forall|i: int| 0 <= i < init.len() implies !is_header_of(#[trigger] init[i], name) by {
            assert(init[i] == ls[i]);
        }
        lemma_no_header_no_section(init, name);
        assert(ls.last() == ls[ls.len() - 1]);
        let before = sections_from(e, init);
        let now = sections_from(e, ls);
        assert forall|i: int| 0 <= i < now.len() implies lower_all((#[trigger] now[i]).id)
            != lower_all(name) by {
            if i < before.len() {
                assert(now[i].id == before[i].id);
            }
        }
        lemma_section_at_none(now, name);
    }
}

proof fn lemma_section_at_none(s: Seq<SectionView>, name: Seq<char>)
    requires
        forall|i: int| 0 <= i < s.len() ==> lower_all((#[trigger] s[i]).id) != lower_all(name),
    ensures
        section_at(s, name) < 0,
    decreases s.len(),
{
    if s.len() > 0 {
        let init = s.drop_last();
        assert forall|i: int| 0 <= i < init.len() implies lower_all((#[trigger] init[i]).id)
            != lower_all(name) by {
            assert(init[i] == s[i]);
        }
        lemma_section_at_none(init, name);
        assert(s.last() == s[s.len() - 1]);
    }
}

/// The first section with a name, behind sections without it.
proof fn lemma_section_at_is(s: Seq<SectionView>, name: Seq<char>, i: int)
    requires
        0 <= i < s.len(),
        lower_all(s[i].id) == lower_all(name),
        forall|k: int| 0 <= k < i ==> lower_all((#[trigger] s[k]).id) != lower_all(name),
    ensures
        section_at(s, name) == i,
    decreases s.len(),
{
    let init = s.drop_last();
    if i < init.len() {
        assert(init[i] == s[i]);
        assert forall|k: int| 0 <= k < i implies lower_all((#[trigger] init[k]).id) != lower_all(
            name,
        ) by {
            assert(init[k] == s[k]);
        }
        lemma_section_at_is(init, name, i);
    } else {
        assert forall|k: int| 0 <= k < init.len() implies lower_all((#[trigger] init[k]).id)
            != lower_all(name) by {
            assert(init[k] == s[k]);
        }
        lemma_section_at_none(init, name);
    }
}

/// The sections up to a header line, and that line's own section behind them.
proof fn lemma_section_of_header(ls: Seq<Seq<char>>, name: Seq<char>, h: int)
    requires
        h == header_from(ls, name, 0),
        h < ls.len(),
    ensures
        ({
            let before = sections_from(Seq::empty(), ls.take(h));
            let all = sections_from(Seq::empty(), ls);
            &&& 0 <= h
            &&& header_name(ls[h]) is Some
            &&& section_at(all, name) == before.len()
            &&& all == before + sections_from(Seq::empty(), ls.skip(h))
            &&& sections_from(Seq::empty(), ls.skip(h)).len() > 0
        }),
{
    let e = Seq::<SectionView>::empty();
    lemma_header_from(ls, name, 0);
    let a = ls.take(h);
    let b = ls.skip(h);
    assert(a + b =~= ls);
    assert(b[0] == ls[h]);
    lemma_sections_append(e, a, b);
    let before = sections_from(e, a);
    lemma_sections_after_header(before, b);
    assert forall|i: int| 0 <= i < a.len() implies !is_header_of(#[trigger] a[i], name) by {
        assert(a[i] == ls[i]);
    }
    lemma_no_header_no_section(a, name);
    let rest = sections_from(e, b);
    let all = before + rest;
    lemma_first_section_id(b);
    assert(all[before.len() as int] == rest[0]);
    assert forall|k: int| 0 <= k < before.len() implies lower_all((#[trigger] all[k]).id)
        != lower_all(name) by {
        assert(all[k] == before[k]);
    }
    lemma_section_at_is(all, name, before.len() as int);
}

proof fn lemma_first_section_id(ls: Seq<Seq<char>>)
    requires
        ls.len() > 0,
        header_name(ls[0]) is Some,
    ensures
        sections_from(Seq::empty(), ls).len() > 0,
        sections_from(Seq::empty(), ls)[0].id == header_name(ls[0])->0,
    decreases ls.len(),
{
    let e = Seq::<SectionView>::empty();
    let init = ls.drop_last();
    if ls.len() == 1 {
        assert(init =~= Seq::<Seq<char>>::empty());
        assert(sections_from(e, init) == e);
        assert(ls.last() == ls[0]);
    } else {
        assert(init[0] == ls[0]);
        lemma_first_section_id(init);
    }
}

/// The writers find a section exactly where the reader does.
pub proof fn law_writers_find_what_the_reader_sees(text: Seq<char>, name: Seq<char>)
    ensures
        header_from(lines_incl(text), name, 0) < lines_incl(text).len() <==> section_at(
            read(text),
            name,
        ) >= 0,
{
    let ls = lines_incl(text);
    let h = header_from(ls, name, 0);
    lemma_header_from(ls, name, 0);
    if h < ls.len() {
        lemma_section_of_header(ls, name, h);
    } else {
        lemma_no_header_no_section(ls, name);
    }
}

/// The lines of a section without another header are one section.
proof fn lemma_one_section(ls: Seq<Seq<char>>)
    requires
        ls.len() > 0,
        header_name(ls[0]) is Some,
        forall|i: int| 1 <= i < ls.len() ==> header_name(#[trigger] ls[i]) is None,
    ensures
        sections_from(Seq::empty(), ls).len() == 1,
    decreases ls.len(),
{
    let e = Seq::<SectionView>::empty();
    let init = ls.drop_last();
    if ls.len() == 1 {
        assert(init =~= Seq::<Seq<char>>::empty());
        assert(sections_from(e, init) == e);
        assert(ls.last() == ls[0]);
    } else {
        assert(init[0] == ls[0]);
        assert forall|i: int| 1 <= i < init.len() implies header_name(#[trigger] init[i]) is None by {
            assert(init[i] == ls[i]);
        }
        lemma_one_section(init);
        assert(ls.last() == ls[ls.len() - 1]);
    }
}

/// A text around one of its sections: what is before it, the section itself, and
/// what is behind it, where the line that ends it is a header.
proof fn lemma_around_section(text: Seq<char>, name: Seq<char>)
    requires
        section_at(read(text), name) >= 0,
        ({
            let ls = lines_incl(text);
            let next = opening_from(ls, header_from(ls, name, 0) + 1);
            next < ls.len() ==> header_name(ls[next]) is Some
        }),
    ensures
        ({
            let ls = lines_incl(text);
            let h = header_from(ls, name, 0);
            let next = opening_from(ls, h + 1);
            let at = section_at(read(text), name);
            &&& 0 <= h < next <= ls.len()
            &&& at < read(text).len()
            &&& sections_from(Seq::empty(), ls.take(h)) == read(text).take(at)
            &&& sections_from(Seq::empty(), ls.skip(next)) == read(text).skip(at + 1)
        }),
{
    let e = Seq::<SectionView>::empty();
    law_writers_find_what_the_reader_sees(text, name);
    let ls = lines_incl(text);
    let h = header_from(ls, name, 0);
    lemma_section_of_header(ls, name, h);
    lemma_opening_from(ls, h + 1);
    let next = opening_from(ls, h + 1);
    let before = sections_from(e, ls.take(h));
    let own = ls.subrange(h, next);
    let rest = ls.skip(next);
    assert(ls.skip(h) =~= own + rest);
    assert(own[0] == ls[h]);
    assert forall|i: int| 1 <= i < own.len() implies header_name(#[trigger] own[i]) is None by {
        assert(own[i] == ls[h + i]);
        if header_name(own[i]) is Some {
            lemma_header_opens(own[i]);
        }
    }
    lemma_one_section(own);
    lemma_sections_append(e, own, rest);
    if rest.len() > 0 {
        assert(rest[0] == ls[next]);
        lemma_sections_after_header(sections_from(e, own), rest);
    } else {
        assert(sections_from(e, rest) == e);
        assert(sections_from(sections_from(e, own), rest) == sections_from(e, own));
        assert(sections_from(e, own) + e =~= sections_from(e, own));
    }
    assert(read(text) == before + (sections_from(e, own) + sections_from(e, rest)));
    assert(read(text).take(before.len() as int) =~= before);
    assert(read(text).skip(before.len() as int + 1) =~= sections_from(e, rest));
}

// ── The laws ─────────────────────────────────────────────────────────────

/// A text whose first line is a header.
pub open spec fn starts_with_header(s: Seq<char>) -> bool {
    lines_incl(s).len() > 0 && header_name(lines_incl(s)[0]) is Some
}

/// Whether what ends a section for its writer, a line that begins with a bracket, is a
/// header for the reader too.
pub open spec fn ends_at_header(content: Seq<char>, name: Seq<char>) -> bool {
    let ls = lines_incl(content);
    let h = header_from(ls, name, 0);
    let next = opening_from(ls, h + 1);
    h < ls.len() && next < ls.len() ==> header_name(ls[next]) is Some
}

/// Replacing a section puts what the new text reads as in its place and leaves
/// every other section as it was. A section that is not there is added behind the
/// others.
pub proof fn law_replace_section(content: Seq<char>, name: Seq<char>, body: Seq<char>)
    requires
        starts_with_header(body),
        ends_at_header(content, name),
    ensures
        ({
            let at = section_at(read(content), name);
            let new = read(body);
            read(section_set(content, name, body)) == if at >= 0 {
                read(content).take(at) + new + read(content).skip(at + 1)
            } else {
                read(content) + new
            }
        }),
{
    let e = Seq::<SectionView>::empty();
    let eol = eol_of(content);
    lemma_eol(content);
    let new_section = section_text(body, eol);
    let ls = lines_incl(content);
    let h = header_from(ls, name, 0);
    lemma_header_from(ls, name, 0);
    law_writers_find_what_the_reader_sees(content, name);
    let out = section_set(content, name, body);
    let fresh = lines_incl(new_section);
    lemma_section_text_reads(e, body, eol);
    lemma_sections_after_header(e, lines_incl(body));
    assert(new_section.len() > 0) by {
        if new_section.len() == 0 {
            assert(fresh =~= Seq::<Seq<char>>::empty());
        }
    }
    if h >= ls.len() {
        let kept = without_line_ends(content);
        let front = kept + eol + eol;
        if content.len() == 0 {
            assert(out =~= new_section);
            assert(ls =~= Seq::<Seq<char>>::empty());
            assert(read(content) == e);
            assert(e + read(body) =~= read(body));
        } else {
            assert(front.last() == eol.last());
            lemma_lines_incl_append(front, new_section);
            lemma_sections_append(e, lines_incl(front), fresh);
            assert forall|i: int| 0 <= i < (eol + eol).len() implies is_space(
                #[trigger] (eol + eol)[i],
            ) by {
                if i < eol.len() {
                    assert((eol + eol)[i] == eol[i]);
                } else {
                    assert((eol + eol)[i] == eol[i - eol.len()]);
                }
            }
            assert(front =~= kept + (eol + eol));
            lemma_space_tail(e, kept, eol + eol);
            lemma_line_ends_are_space(content);
            assert(kept + content.skip(kept.len() as int) =~= content);
            lemma_space_tail(e, kept, content.skip(kept.len() as int));
            lemma_section_text_reads(read(content), body, eol);
            lemma_sections_after_header(read(content), lines_incl(body));
        }
    } else {
        lemma_around_section(content, name);
        let next = opening_from(ls, h + 1);
        let sep = if next >= ls.len() {
            Seq::<char>::empty()
        } else {
            eol
        };
        let (a, c) = (ls.take(h), ls.skip(next));
        assert(a =~= ls.subrange(0, h));
        assert(c =~= ls.subrange(next, ls.len() as int));
        lemma_lines_range(content, 0, h);
        lemma_lines_range(content, next, ls.len() as int);
        let front = concat(a) + new_section;
        lemma_section_text_ends(body, eol);
        assert(front.last() == new_section.last());
        assert(ends_line(front));
        lemma_lines_incl_append(concat(a), new_section);
        lemma_sections_append(e, a, fresh);
        lemma_section_text_reads(sections_from(e, a), body, eol);
        lemma_sections_after_header(sections_from(e, a), lines_incl(body));
        let mid = front + sep;
        lemma_space_tail(e, front, sep);
        assert(ends_line(mid)) by {
            if sep.len() > 0 {
                assert(mid.last() == sep.last());
            } else {
                assert(mid =~= front);
            }
        }
        lemma_lines_incl_append(mid, concat(c));
        lemma_sections_append(e, lines_incl(mid), c);
        let acc = sections_from(e, lines_incl(mid));
        if c.len() > 0 {
            assert(c[0] == ls[next]);
            lemma_sections_after_header(acc, c);
        } else {
            assert(sections_from(acc, c) == acc);
            assert(sections_from(e, c) == e);
            assert(acc + e =~= acc);
        }
        assert(out =~= mid + concat(c));
    }
}

proof fn lemma_section_text_ends(body: Seq<char>, eol: Seq<char>)
    requires
        eol.len() > 0,
        eol.last() == '\n',
    ensures
        ends_line(section_text(body, eol)),
{
    let s = section_text(body, eol);
    if s.len() > 0 {
        assert(s.last() == eol.last());
    }
}

/// One line end in place of another does not matter to the reader.
proof fn lemma_ends_replaced(acc: Seq<SectionView>, s: Seq<char>, from: Seq<char>, to: Seq<char>)
    requires
        all_space(from),
        all_space(to),
        from.len() > 0,
        to.len() > 0,
        from.last() == '\n',
        to.last() == '\n',
    ensures
        sections_from(acc, lines_incl(replace_all(s, from, to))) == sections_from(
            acc,
            lines_incl(s),
        ),
    decreases s.len(),
{
    lemma_find_from(s, from, 0);
    if let Some(i) = find(s, from) {
        let a = s.take(i);
        let rest = s.skip(i + from.len());
        let done = replace_all(rest, from, to);
        assert(s =~= a + from + rest) by {
            assert(s =~= a + s.subrange(i, i + from.len()) + rest);
        }
        assert((a + to).last() == to.last());
        assert((a + from).last() == from.last());
        lemma_lines_incl_append(a + to, done);
        lemma_sections_append(acc, lines_incl(a + to), lines_incl(done));
        lemma_lines_incl_append(a + from, rest);
        lemma_sections_append(acc, lines_incl(a + from), lines_incl(rest));
        lemma_space_tail(acc, a, to);
        lemma_space_tail(acc, a, from);
        lemma_ends_replaced(sections_from(acc, lines_incl(a)), rest, from, to);
    }
}

/// A section reads the same once it has the line ends of a file.
proof fn lemma_section_text_reads(acc: Seq<SectionView>, body: Seq<char>, eol: Seq<char>)
    requires
        eol == "\n"@ || eol == "\r\n"@,
    ensures
        sections_from(acc, lines_incl(section_text(body, eol))) == sections_from(
            acc,
            lines_incl(body),
        ),
{
    reveal_strlit("\n");
    reveal_strlit("\r\n");
    let lf = "\n"@;
    let crlf = "\r\n"@;
    let b = trim_end(body);
    lemma_trim_end_shape(body);
    lemma_end_space(body);
    assert(b + body.skip(b.len() as int) =~= body);
    lemma_space_tail(acc, b, body.skip(b.len() as int));
    lemma_ends_replaced(acc, b, crlf, lf);
    lemma_ends_replaced(acc, replace_all(b, crlf, lf), lf, crlf);
    lemma_space_tail(acc, with_eol(b, eol), eol);
    if with_eol(b, eol).len() == 0 {
        assert(with_eol(b, eol) =~= Seq::<char>::empty());
    }
}

/// Deleting a section leaves every other section as it was.
pub proof fn law_delete_section(content: Seq<char>, name: Seq<char>)
    requires
        section_at(read(content), name) >= 0,
        ({
            let ls = lines_incl(content);
            let next = opening_from(ls, header_from(ls, name, 0) + 1);
            next < ls.len() ==> header_name(ls[next]) is Some
        }),
    ensures
        section_deleted(content, name) is Some,
        read(section_deleted(content, name)->0) == read(content).remove(
            section_at(read(content), name),
        ),
{
    let e = Seq::<SectionView>::empty();
    let ls = lines_incl(content);
    let h = header_from(ls, name, 0);
    law_writers_find_what_the_reader_sees(content, name);
    lemma_around_section(content, name);
    let next = opening_from(ls, h + 1);
    let at = section_at(read(content), name);
    let (a, c) = (ls.take(h), ls.skip(next));
    assert(a =~= ls.subrange(0, h));
    assert(c =~= ls.subrange(next, ls.len() as int));
    lemma_lines_range(content, 0, h);
    lemma_lines_range(content, next, ls.len() as int);
    let raw = concat(a) + concat(c);
    lemma_lines_incl_append(concat(a), concat(c));
    lemma_sections_append(e, a, c);
    let acc = sections_from(e, a);
    if c.len() > 0 {
        assert(c[0] == ls[next]);
        lemma_sections_after_header(acc, c);
    } else {
        assert(sections_from(acc, c) == acc);
        assert(sections_from(e, c) == e);
        assert(acc + e =~= acc);
    }
    assert(read(raw) == read(content).take(at) + read(content).skip(at + 1));
    assert(read(content).remove(at) =~= read(content).take(at) + read(content).skip(at + 1));
    reveal_strlit("\r\n\r\n\r\n");
    reveal_strlit("\r\n\r\n");
    reveal_strlit("\n\n\n");
    reveal_strlit("\n\n");
    lemma_ends_replaced(e, raw, "\r\n\r\n\r\n"@, "\r\n\r\n"@);
    lemma_ends_replaced(
        e,
        replace_all(raw, "\r\n\r\n\r\n"@, "\r\n\r\n"@),
        "\n\n\n"@,
        "\n\n"@,
    );
}

/// A section under another name.
pub open spec fn with_id(s: Seq<SectionView>, i: int, id: Seq<char>) -> Seq<SectionView> {
    s.update(i, SectionView { id, keys: s[i].keys })
}

proof fn lemma_rename_commutes(acc: Seq<SectionView>, ls: Seq<Seq<char>>, i: int, id: Seq<char>)
    requires
        0 <= i < acc.len(),
    ensures
        sections_from(with_id(acc, i, id), ls) == with_id(sections_from(acc, ls), i, id),
        sections_from(acc, ls).len() >= acc.len(),
    decreases ls.len(),
{
    if ls.len() > 0 {
        lemma_rename_commutes(acc, ls.drop_last(), i, id);
        let s = sections_from(acc, ls.drop_last());
        assert(step(with_id(s, i, id), ls.last()) =~= with_id(step(s, ls.last()), i, id));
    }
}

proof fn lemma_space_around(line: Seq<char>)
    ensures
        ({
            let start = line.len() - trim_start(line).len();
            let end = start + trim(line).len();
            &&& 0 <= start <= end <= line.len()
            &&& all_space(line.take(start))
            &&& all_space(line.skip(end))
        }),
{
    lemma_trim_start_shape(line);
    lemma_trim_end_shape(trim_start(line));
    lemma_start_space(line);
    lemma_end_space(trim_start(line));
    let start = line.len() - trim_start(line).len();
    let end = start + trim(line).len();
    assert(line.skip(end) =~= trim_start(line).skip(trim(line).len() as int));
}

proof fn lemma_start_space(s: Seq<char>)
    ensures
        trim_start(s).len() <= s.len(),
        all_space(s.take(s.len() - trim_start(s).len())),
    decreases s.len(),
{
    lemma_trim_start_shape(s);
    if s.len() > 0 && is_space(s[0]) {
        let t = s.skip(1);
        lemma_start_space(t);
        let n = s.len() - trim_start(s).len();
        assert forall|i: int| 0 <= i < n implies is_space(#[trigger] s.take(n)[i]) by {
            if i > 0 {
                assert(s.take(n)[i] == t.take(n - 1)[i - 1]);
            }
        }
    }
}

proof fn lemma_end_space(s: Seq<char>)
    ensures
        trim_end(s).len() <= s.len(),
        all_space(s.skip(trim_end(s).len() as int)),
    decreases s.len(),
{
    lemma_trim_end_shape(s);
    if s.len() > 0 && is_space(s.last()) {
        let t = s.drop_last();
        lemma_end_space(t);
        let n = trim_end(s).len() as int;
        assert forall|i: int| 0 <= i < s.skip(n).len() implies is_space(#[trigger] s.skip(n)[i]) by {
            if i < t.skip(n).len() {
                assert(s.skip(n)[i] == t.skip(n)[i]);
            }
        }
    }
}

/// Renaming a section gives it the new name and changes nothing else.
pub proof fn law_rename_section(content: Seq<char>, old_name: Seq<char>, new: Seq<char>)
    requires
        section_renamed(content, old_name, new) is Ok,
        !new.contains('\n'),
    ensures
        section_at(read(content), old_name) >= 0,
        read(section_renamed(content, old_name, new)->Ok_0) == with_id(
            read(content),
            section_at(read(content), old_name),
            trim(new),
        ),
{
    let e = Seq::<SectionView>::empty();
    let ls = lines_incl(content);
    let h = header_from(ls, old_name, 0);
    lemma_header_from(ls, old_name, 0);
    lemma_section_of_header(ls, old_name, h);
    let (a, rest) = (ls.take(h), ls.skip(h + 1));
    let line = ls[h];
    let fresh = renamed_line(line, new);
    reveal_strlit("[");
    reveal_strlit("]");
    let core = "["@ + new + "]"@;
    let start = line.len() - trim_start(line).len();
    let end = start + trim(line).len();
    lemma_space_around(line);
    assert(fresh =~= line.take(start) + core + line.skip(end));
    lemma_trim_core(line.take(start), core, line.skip(end));
    assert(core.subrange(1, core.len() - 1) =~= new);
    assert(header_name(fresh) == Some(trim(new)));
    lemma_lines_incl_shape(content);
    assert(line == ls[h]);
    assert forall|k: int| 0 <= k < fresh.len() - 1 implies fresh[k] != '\n' by {
        if k < start {
            assert(fresh[k] == line[k]);
        } else if k < start + core.len() {
            let c = core[k - start];
            if 1 <= k - start < core.len() - 1 {
                assert(new.contains(new[k - start - 1]));
            }
        } else {
            assert(fresh[k] == line[k - core.len() - start + end]);
        }
    }
    let v = a + seq![fresh] + rest;
    assert forall|i: int| 0 <= i < v.len() implies (#[trigger] v[i]).len() > 0 && (forall|k: int|
        0 <= k < v[i].len() - 1 ==> v[i][k] != '\n') && (i < v.len() - 1 ==> v[i].last() == '\n') by {
        if i < h {
            assert(v[i] == ls[i]);
        } else if i > h {
            assert(v[i] == ls[i]);
        } else {
            assert(v[i] == fresh);
            if i < v.len() - 1 {
                assert(line.last() == '\n');
                assert(header_name(line) is Some);
                lemma_trim_end_shape(trim_start(line));
                lemma_trim_start_shape(line);
                if end == line.len() {
                    assert(trim(line).last() == line.last());
                }
                assert(fresh.last() == line.last());
            }
        }
    }
    lemma_lines_of_concat(v);
    lemma_concat_append(a + seq![fresh], rest);
    lemma_concat_append(a, seq![fresh]);
    lemma_concat_one(fresh);
    assert(section_renamed(content, old_name, new)->Ok_0 =~= concat(v));
    let acc = sections_from(e, a);
    lemma_sections_append(e, a + seq![fresh], rest);
    lemma_sections_append(e, a, seq![fresh]);
    lemma_sections_one(acc, fresh);
    lemma_sections_append(e, a + seq![line], rest);
    lemma_sections_append(e, a, seq![line]);
    lemma_sections_one(acc, line);
    assert(a + seq![line] + rest =~= ls);
    let i = acc.len() as int;
    assert(step(acc, fresh) =~= with_id(step(acc, line), i, trim(new)));
    lemma_rename_commutes(step(acc, line), rest, i, trim(new));
}

/// Whether two keys are the same but for the case of their letters.
pub open spec fn same_key(a: Seq<char>, b: Seq<char>) -> bool {
    lower_all(a) == lower_all(b)
}

/// The keys of a section once one was written: in the spelling it was written in,
/// and in no other.
pub open spec fn rekeyed(m: Map<Seq<char>, Seq<char>>, k: Seq<char>, v: Seq<char>) -> Map<
    Seq<char>,
    Seq<char>,
> {
    m.remove_keys(Set::new(|q: Seq<char>| same_key(q, k))).insert(k, v)
}

/// The sections with a key of one of them written.
pub open spec fn with_key(
    s: Seq<SectionView>,
    i: int,
    k: Seq<char>,
    v: Seq<char>,
) -> Seq<SectionView> {
    s.update(i, SectionView { id: s[i].id, keys: rekeyed(s[i].keys, k, v) })
}

/// Whether the reader takes a line for one that sets the key, in any spelling.
pub open spec fn spells(line: Seq<char>, k: Seq<char>) -> bool {
    key_line(line) is Some && same_key((key_line(line)->0).0, k)
}

/// No line up to the next header sets the key, in any spelling.
pub open spec fn unset_in(ls: Seq<Seq<char>>, k: Seq<char>) -> bool {
    forall|m: int|
        0 <= m < ls.len() && (forall|q: int| 0 <= q <= m ==> header_name(#[trigger] ls[q]) is None)
            ==> !spells(#[trigger] ls[m], k)
}

/// Whether keys hold no spelling of one.
spec fn free_of(m: Map<Seq<char>, Seq<char>>, k: Seq<char>) -> bool {
    forall|q: Seq<char>| #[trigger] m.dom().contains(q) ==> !same_key(q, k)
}

proof fn lemma_rekeyed_free(m: Map<Seq<char>, Seq<char>>, k: Seq<char>, v: Seq<char>)
    requires
        free_of(m, k),
    ensures
        rekeyed(m, k, v) == m.insert(k, v),
{
    assert(rekeyed(m, k, v) =~= m.insert(k, v));
}

/// Another key can be set before or after.
proof fn lemma_rekeyed_commutes(
    m: Map<Seq<char>, Seq<char>>,
    k: Seq<char>,
    v: Seq<char>,
    a: Seq<char>,
    b: Seq<char>,
)
    requires
        !same_key(a, k),
    ensures
        rekeyed(m, k, v).insert(a, b) == rekeyed(m.insert(a, b), k, v),
{
    assert(rekeyed(m, k, v).insert(a, b) =~= rekeyed(m.insert(a, b), k, v));
}

#[verifier::rlimit(30)]
#[verifier::spinoff_prover]
proof fn lemma_key_commutes(
    acc: Seq<SectionView>,
    ls: Seq<Seq<char>>,
    k: Seq<char>,
    v: Seq<char>,
)
    requires
        0 < acc.len(),
        unset_in(ls, k),
    ensures
        sections_from(with_key(acc, acc.len() - 1, k, v), ls) == with_key(
            sections_from(acc, ls),
            acc.len() - 1,
            k,
            v,
        ),
        sections_from(acc, ls).len() >= acc.len(),
        sections_from(acc, ls).len() == acc.len() <==> forall|q: int|
            0 <= q < ls.len() ==> header_name(#[trigger] ls[q]) is None,
    decreases ls.len(),
{
    let i = acc.len() - 1;
    if ls.len() > 0 {
        let init = ls.drop_last();
        let last = ls.last();
        assert(last == ls[ls.len() - 1]);
        assert(unset_in(init, k)) by {
            assert forall|m: int|
                0 <= m < init.len() && (forall|q: int|
                    0 <= q <= m ==> header_name(#[trigger] init[q]) is None) implies !spells(
                #[trigger] init[m],
                k,
            ) by {
                assert(init[m] == ls[m]);
                assert forall|q: int| 0 <= q <= m implies header_name(#[trigger] ls[q]) is None by {
                    assert(init[q] == ls[q]);
                }
            }
        }
        lemma_key_commutes(acc, init, k, v);
        let s = sections_from(acc, init);
        if forall|q: int| 0 <= q < ls.len() ==> header_name(#[trigger] ls[q]) is None {
            assert forall|q: int| 0 <= q < init.len() implies header_name(#[trigger] init[q]) is None by {
                assert(init[q] == ls[q]);
            }
            assert(s.len() == acc.len());
            match key_line(ls[ls.len() - 1]) {
                Some(kv) => {
                    assert(!spells(ls[ls.len() - 1], k));
                    lemma_rekeyed_commutes(s.last().keys, k, v, kv.0, kv.1);
                },
                None => {},
            }
            assert(step(with_key(s, i, k, v), last) =~= with_key(step(s, last), i, k, v));
        } else {
            if header_name(last) is None {
                let q = choose|q: int| 0 <= q < ls.len() && header_name(#[trigger] ls[q]) is Some;
                assert(init[q] == ls[q]);
                assert(s.len() > acc.len());
            }
            assert(step(with_key(s, i, k, v), last) =~= with_key(step(s, last), i, k, v));
        }
    } else {
        assert(unset_in(ls, k));
    }
}

/// A key and a value that can stand on a line of their own: the reader gives both
/// back.
pub open spec fn plain_pair(k: Seq<char>, v: Seq<char>) -> bool {
    &&& plain_key(k)
    &&& trim(v) == v
    &&& !has_marker(v)
    &&& !v.contains('\n')
}

proof fn lemma_trimmed_ends(s: Seq<char>)
    requires
        trim(s) == s,
        s.len() > 0,
    ensures
        !is_space(s[0]),
        !is_space(s.last()),
        trim_start(s) == s,
        trim_end(s) == s,
{
    lemma_trim_start_shape(s);
    lemma_trim_end_shape(trim_start(s));
}

/// A line that sets a key reads as that key and value.
pub proof fn lemma_assignment_reads(k: Seq<char>, v: Seq<char>, end: Seq<char>)
    requires
        plain_pair(k, v),
        all_space(end),
    ensures
        header_name(assignment(k, v) + end) is None,
        key_line(assignment(k, v) + end) == Some((k, v)),
{
    reveal_strlit(" = ");
    let line = assignment(k, v);
    lemma_trim_append_all(line, end);
    lemma_trimmed_ends(k);
    let e = Seq::<char>::empty();
    let t = trim(line);
    let sp = seq![' '];
    if v.len() > 0 {
        lemma_trimmed_ends(v);
        assert(line.last() == v.last());
        assert(line[0] == k[0]);
        lemma_trim_core(e, line, e);
        assert(e + line + e =~= line);
        assert(t == line);
    } else {
        let core = k + seq![' ', '='];
        assert(line =~= e + core + sp);
        assert(core[0] == k[0]);
        lemma_trim_core(e, core, sp);
        assert(t == core);
    }
    assert(t[0] == k[0]);
    let eq: int = k.len() + 1int;
    assert forall|i: int| 0 <= i < eq implies t[i] != '=' by {
        if i < k.len() {
            assert(t[i] == k[i]);
            assert(k.contains(k[i]));
        }
    }
    lemma_find_char_is(t, '=', eq as int);
    assert(t.take(eq as int) =~= e + k + sp);
    lemma_trim_core(e, k, sp);
    let tail = t.skip(eq + 1);
    if v.len() > 0 {
        assert(tail =~= sp + v + e);
        lemma_trim_core(sp, v, e);
    } else {
        assert(tail =~= e);
        assert(v =~= e);
    }
    assert(trim(tail) == v);
    law_guard_matches_reader(v);
    if v.len() == 0 {
        assert(trim_end(v) == v);
    }
}

pub proof fn lemma_key_from(ls: Seq<Seq<char>>, key: Seq<char>, from: int)
    requires
        0 <= from <= ls.len(),
    ensures
        from <= key_from(ls, key, from) <= ls.len(),
        key_from(ls, key, from) < ls.len() ==> sets_key(ls[key_from(ls, key, from)], key),
        forall|i: int| from <= i < key_from(ls, key, from) ==> !sets_key(#[trigger] ls[i], key),
    decreases ls.len() - from,
{
    if from < ls.len() && !sets_key(ls[from], key) {
        lemma_key_from(ls, key, from + 1);
    }
}

/// The line behind which nothing of the section may set the key again: the one
/// that is rewritten, or the last of the section.
pub open spec fn settled(content: Seq<char>, section: Seq<char>, k: Seq<char>) -> int {
    let ls = lines_incl(content);
    let h = header_from(ls, section, 0);
    let end = opening_from(ls, h + 1);
    let at = key_from(ls.subrange(h + 1, end), k, 0);
    if at < end - (h + 1) {
        h + 1 + at + 1
    } else {
        end
    }
}

/// Whether a section holds a key once at most, where the writer looks for it: behind
/// the line that is rewritten, or behind the last line before a bracket, no line up
/// to the next header sets the key, in any spelling.
pub open spec fn held_once(content: Seq<char>, section: Seq<char>, k: Seq<char>) -> bool {
    unset_in(lines_incl(content).skip(settled(content, section, k)), k)
}

/// A text that can be a key: not empty, trimmed, on one line, no header, no comment.
pub open spec fn plain_key(k: Seq<char>) -> bool {
    &&& k.len() > 0
    &&& trim(k) == k
    &&& !k.contains('=')
    &&& !k.contains('\n')
    &&& k[0] != '['
    &&& !is_marker(k[0])
}

/// A section holds a key once at most where every line that begins with a bracket is
/// a header and no two lines of the section set the key, in any spelling.
pub proof fn law_held_once(content: Seq<char>, section: Seq<char>, k: Seq<char>)
    requires
        plain_key(k),
        section_at(read(content), section) >= 0,
        forall|i: int|
            0 <= i < lines_incl(content).len() && opens_section(#[trigger] lines_incl(content)[i])
                ==> header_name(lines_incl(content)[i]) is Some,
        ({
            let ls = lines_incl(content);
            let h = header_from(ls, section, 0);
            forall|i: int, j: int|
                h < i < j < opening_from(ls, h + 1) ==> !(spells(#[trigger] ls[i], k) && spells(
                    #[trigger] ls[j],
                    k,
                ))
        }),
    ensures
        held_once(content, section, k),
{
    let ls = lines_incl(content);
    let h = header_from(ls, section, 0);
    law_writers_find_what_the_reader_sees(content, section);
    lemma_header_from(ls, section, 0);
    lemma_opening_from(ls, h + 1);
    let end = opening_from(ls, h + 1);
    let body = ls.subrange(h + 1, end);
    let at = key_from(body, k, 0);
    lemma_key_from(body, k, 0);
    let from = settled(content, section, k);
    let rest = ls.skip(from);
    assert forall|m: int|
        0 <= m < rest.len() && (forall|q: int| 0 <= q <= m ==> header_name(#[trigger] rest[q]) is None)
        implies !spells(#[trigger] rest[m], k) by {
        assert(rest[m] == ls[from + m]);
        if from + m >= end {
            let q = end - from;
            assert(rest[q] == ls[end]);
            assert(header_name(rest[q]) is None);
            assert(opens_section(ls[end]));
        } else {
            assert(body[at] == ls[h + 1 + at]);
            lemma_writer_and_reader_agree(body[at], k);
            assert(spells(ls[h + 1 + at], k));
        }
    }
}

/// The writer finds a key on the lines from which the reader takes it.
proof fn lemma_writer_and_reader_agree(line: Seq<char>, k: Seq<char>)
    requires
        plain_key(k),
    ensures
        sets_key(line, k) == spells(line, k),
{
    lemma_trimmed_ends(k);
    lemma_trim_start_shape(line);
    let n = k.len() as int;
    let ts = trim_start(line);
    lemma_trim_end_shape(ts);
    lemma_end_space(ts);
    let t = trim(line);
    let e = Seq::<char>::empty();
    if sets_key(line, k) {
        let tail = ts.skip(n);
        let rest = trim_start(tail);
        lemma_trim_start_shape(tail);
        lemma_start_space(tail);
        let w = tail.len() - rest.len();
        let sp = tail.take(w);
        let core = ts.take(n);
        lemma_same_shape(core, k);
        assert(tail[w] == rest[0]);
        assert(ts[n + w] == '=');
        assert(t.len() > n + w) by {
            if t.len() <= n + w {
                assert(ts.skip(t.len() as int)[n + w - t.len()] == '=');
            }
        }
        assert forall|i: int| 0 <= i < n + w implies t[i] != '=' by {
            assert(t[i] == ts[i]);
            if i < n {
                assert(core[i] == ts[i]);
                assert(core.contains(core[i]));
            } else {
                assert(sp[i - n] == ts[i]);
            }
        }
        lemma_find_char_is(t, '=', n + w);
        assert(t.take(n + w) =~= e + core + sp);
        lemma_trim_core(e, core, sp);
        assert(t[0] == core[0]);
    }
    if spells(line, k) {
        let eq = find_char(t, '=');
        lemma_find_char(t, '=');
        let head = t.take(eq);
        let x = trim(head);
        assert(x.len() == n) by {
            assert(lower_all(x).len() == lower_all(k).len());
        }
        lemma_trim_start_shape(head);
        lemma_trim_end_shape(trim_start(head));
        assert(head.len() > 0);
        assert(head[0] == t[0]);
        assert(t[0] == ts[0]);
        assert(trim_start(head) == head);
        lemma_end_space(head);
        assert(x =~= ts.take(n));
        let gap = head.skip(n);
        let l = ts.skip(eq);
        assert(ts.skip(n) =~= gap + l);
        lemma_trim_start_prepend(gap, l);
        assert(l[0] == '=');
        assert(trim_start(l) == l);
    }
}

/// A text that differs from a key in the case of its letters alone is as plain as it.
proof fn lemma_same_shape(x: Seq<char>, k: Seq<char>)
    requires
        plain_key(k),
        !is_space(k[0]),
        !is_space(k.last()),
        same_key(x, k),
    ensures
        x.len() == k.len(),
        !is_space(x[0]),
        !is_space(x.last()),
        x[0] != '[',
        !is_marker(x[0]),
        !x.contains('='),
{
    assert(lower_all(x).len() == lower_all(k).len());
    assert forall|i: int| 0 <= i < x.len() implies lower(#[trigger] x[i]) == lower(k[i]) by {
        assert(lower_all(x)[i] == lower_all(k)[i]);
    }
    let last = x.len() - 1;
    assert(lower(x[0]) == lower(k[0]));
    assert(lower(x[last]) == lower(k[last]));
    if x.contains('=') {
        let i = choose|i: int| 0 <= i < x.len() && x[i] == '=';
        assert(lower(x[i]) == lower(k[i]));
        assert(k[i] == '=');
        assert(k.contains(k[i]));
    }
}

/// Lines on which the writer does not find a key leave the last section without any
/// spelling of it.
proof fn lemma_body_free(
    first: Seq<SectionView>,
    body: Seq<Seq<char>>,
    ls: Seq<Seq<char>>,
    from: int,
    k: Seq<char>,
)
    requires
        plain_key(k),
        0 < first.len(),
        0 <= from,
        from + body.len() <= opening_from(ls, from) <= ls.len(),
        from <= ls.len(),
        body == ls.subrange(from, from + body.len()),
        free_of(first.last().keys, k),
        forall|i: int| 0 <= i < body.len() ==> !sets_key(#[trigger] body[i], k),
    ensures
        sections_from(first, body).len() == first.len(),
        free_of(sections_from(first, body).last().keys, k),
    decreases body.len(),
{
    lemma_body_keeps(first, body, ls, from);
    if body.len() > 0 {
        let init = body.drop_last();
        assert(init =~= ls.subrange(from, from + init.len()));
        assert forall|i: int| 0 <= i < init.len() implies !sets_key(#[trigger] init[i], k) by {
            assert(init[i] == body[i]);
        }
        lemma_body_free(first, init, ls, from, k);
        let line = body[body.len() - 1];
        lemma_opening_from(ls, from);
        assert(line == ls[from + body.len() - 1]);
        if header_name(line) is Some {
            lemma_header_opens(line);
        }
        lemma_writer_and_reader_agree(line, k);
    }
}

/// The text up to the end of the section's header line.
spec fn front_of(content: Seq<char>, section: Seq<char>) -> Seq<char> {
    let ls = lines_incl(content);
    let h = header_from(ls, section, 0);
    concat(ls.take(h + 1)) + (if ls[h].last() == '\n' {
        Seq::<char>::empty()
    } else {
        eol_of(content)
    })
}

/// What the reader has when it has read the header.
proof fn lemma_header_front(content: Seq<char>, section: Seq<char>)
    requires
        section_at(read(content), section) >= 0,
    ensures
        ({
            let ls = lines_incl(content);
            let h = header_from(ls, section, 0);
            let end = opening_from(ls, h + 1);
            let first = sections_from(Seq::empty(), ls.take(h + 1));
            &&& 0 <= h < end <= ls.len()
            &&& ends_line(front_of(content, section))
            &&& sections_from(Seq::empty(), lines_incl(front_of(content, section))) == first
            &&& first.len() > 0
            &&& first.len() - 1 == section_at(read(content), section)
            &&& first.last().keys == Map::<Seq<char>, Seq<char>>::empty()
        }),
{
    let e = Seq::<SectionView>::empty();
    let eol = eol_of(content);
    lemma_eol(content);
    let ls = lines_incl(content);
    let h = header_from(ls, section, 0);
    law_writers_find_what_the_reader_sees(content, section);
    lemma_header_from(ls, section, 0);
    lemma_section_of_header(ls, section, h);
    lemma_opening_from(ls, h + 1);
    let front = front_of(content, section);
    assert(ls.take(h + 1) =~= ls.take(h) + seq![ls[h]]);
    lemma_sections_append(e, ls.take(h), seq![ls[h]]);
    lemma_sections_one(sections_from(e, ls.take(h)), ls[h]);
    assert(ls.take(h + 1) =~= ls.subrange(0, h + 1));
    lemma_lines_range(content, 0, h + 1);
    lemma_lines_incl_shape(content);
    assert(concat(ls.take(h + 1)).last() == ls[h].last()) by {
        assert(ls.take(h + 1).last() == ls[h]);
        assert(ls[h].len() > 0);
    }
    if ls[h].last() != '\n' {
        assert(front.last() == eol.last());
        lemma_space_tail(e, concat(ls.take(h + 1)), eol);
    } else {
        assert(front =~= concat(ls.take(h + 1)));
    }
}

/// Reading a text in four parts: what ends a line, some lines, one line, and the
/// lines behind it.
proof fn lemma_read_parts(front: Seq<char>, b0: Seq<Seq<char>>, fresh: Seq<char>, rest: Seq<Seq<char>>)
    requires
        ends_line(front),
        lines_incl(concat(b0)) == b0,
        ends_line(concat(b0)),
        lines_incl(fresh) == seq![fresh],
        ends_line(fresh),
        lines_incl(concat(rest)) == rest,
    ensures
        read(front + concat(b0) + fresh + concat(rest)) == sections_from(
            step(sections_from(read(front), b0), fresh),
            rest,
        ),
{
    let e = Seq::<SectionView>::empty();
    let p = front + concat(b0);
    assert(ends_line(p)) by {
        if concat(b0).len() > 0 {
            assert(p.last() == concat(b0).last());
        } else {
            assert(p =~= front);
        }
    }
    lemma_lines_incl_append(front, concat(b0));
    lemma_sections_append(e, lines_incl(front), b0);
    let acc = sections_from(read(front), b0);
    lemma_lines_incl_append(p, fresh);
    lemma_sections_append(e, lines_incl(p), seq![fresh]);
    lemma_sections_one(acc, fresh);
    let q = p + fresh;
    assert(ends_line(q)) by {
        if fresh.len() > 0 {
            assert(q.last() == fresh.last());
        } else {
            assert(q =~= p);
        }
    }
    lemma_lines_incl_append(q, concat(rest));
    lemma_sections_append(e, lines_incl(q), rest);
}

/// [`law_replace_key`] where a line of the section sets the key.
#[verifier::rlimit(60)]
#[verifier::spinoff_prover]
proof fn lemma_key_rewritten(content: Seq<char>, section: Seq<char>, k: Seq<char>, v: Seq<char>)
    requires
        ({
            let ls = lines_incl(content);
            let h = header_from(ls, section, 0);
            let end = opening_from(ls, h + 1);
            key_from(ls.subrange(h + 1, end), k, 0) < end - (h + 1)
        }),
        plain_pair(k, v),
        section_at(read(content), section) >= 0,
        held_once(content, section, k),
    ensures
        read(key_set(content, section, k, v)) == with_key(
            read(content),
            section_at(read(content), section),
            k,
            v,
        ),
{
    let e = Seq::<SectionView>::empty();
    let eol = eol_of(content);
    lemma_eol(content);
    let ls = lines_incl(content);
    let h = header_from(ls, section, 0);
    lemma_header_front(content, section);
    let end = opening_from(ls, h + 1);
    let body = ls.subrange(h + 1, end);
    let at = key_from(body, k, 0);
    lemma_key_from(body, k, 0);
    let old_line = body[at];
    let front = front_of(content, section);
    let first = sections_from(e, ls.take(h + 1));
    let ending = end_of(old_line, eol);
    let fresh = assignment(k, v) + ending;
    let b0 = ls.subrange(h + 1, h + 1 + at);
    let rest = ls.subrange(h + 2 + at, ls.len() as int);
    lemma_lines_range(content, h + 1, h + 1 + at);
    lemma_lines_range(content, h + 2 + at, ls.len() as int);
    assert(all_space(ending) && ending.len() > 0 && ending.last() == '\n');
    lemma_assignment_reads(k, v, ending);
    lemma_plain_line(k, v, ending);
    lemma_lines_incl_one(fresh);
    assert(fresh.last() == ending.last());
    lemma_read_parts(front, b0, fresh, rest);
    assert(key_set(content, section, k, v) == front + concat(b0) + fresh + concat(rest)) by {
        let b1 = body.skip(at + 1);
        let c = ls.skip(end);
        assert(body.take(at) =~= b0);
        assert(rest =~= b1 + c);
        lemma_concat_append(b1, c);
        assert(key_set(content, section, k, v) =~= front + concat(b0) + fresh + concat(rest));
    }
    let acc = sections_from(first, b0);
    assert forall|i: int| 0 <= i < b0.len() implies !sets_key(#[trigger] b0[i], k) by {
        assert(b0[i] == body[i]);
    }
    lemma_body_free(first, b0, ls, h + 1, k);
    lemma_writer_and_reader_agree(old_line, k);
    let before = step(acc, old_line);
    assert(read(content) == sections_from(before, rest)) by {
        assert(ls =~= ls.take(h + 1) + b0 + seq![old_line] + rest);
        lemma_sections_append(e, ls.take(h + 1) + b0 + seq![old_line], rest);
        lemma_sections_append(e, ls.take(h + 1) + b0, seq![old_line]);
        lemma_sections_append(e, ls.take(h + 1), b0);
        lemma_sections_one(acc, old_line);
    }
    assert(old_line == ls[h + 1 + at]);
    assert(before.len() == acc.len());
    assert(step(acc, fresh) =~= with_key(before, acc.len() - 1, k, v)) by {
        let m = acc.last().keys;
        let kv = key_line(old_line)->0;
        assert(rekeyed(m.insert(kv.0, kv.1), k, v) =~= m.insert(k, v));
    }
    assert(rest =~= ls.skip(h + 2 + at));
    lemma_key_commutes(before, rest, k, v);
}

/// A key set behind a blank body.
proof fn lemma_key_on_blank(front: Seq<char>, all: Seq<char>, k: Seq<char>, v: Seq<char>, eol: Seq<char>)
    requires
        plain_pair(k, v),
        eol == "\n"@ || eol == "\r\n"@,
        ends_line(front),
        read(front).len() > 0,
        free_of(read(front).last().keys, k),
        all_space(all),
        ends_line(all) || all.len() > 0,
    ensures
        sections_from(read(front), lines_incl(all)) == read(front),
        read(front + (assignment(k, v) + eol + all)) == with_key(
            read(front),
            read(front).len() - 1,
            k,
            v,
        ),
        ends_line(all) ==> ends_line(front + (assignment(k, v) + eol + all)),
{
    let e = Seq::<SectionView>::empty();
    lemma_eol(eol);
    let fresh = assignment(k, v) + eol;
    lemma_assignment_reads(k, v, eol);
    lemma_plain_line(k, v, eol);
    lemma_lines_incl_one(fresh);
    lemma_lines_incl_append(front, fresh);
    lemma_sections_append(e, lines_incl(front), seq![fresh]);
    lemma_sections_one(read(front), fresh);
    lemma_space_tail(e, front + fresh, all);
    assert(front + (fresh + all) =~= front + fresh + all);
    lemma_rekeyed_free(read(front).last().keys, k, v);
    assert(step(read(front), fresh) =~= with_key(read(front), read(front).len() - 1, k, v));
    lemma_lines_incl_append(front, all);
    lemma_sections_append(e, lines_incl(front), lines_incl(all));
    lemma_space_tail(e, front, all);
    assert(fresh.last() == eol.last());
    let s = front + (fresh + all);
    if all.len() > 0 {
        assert(s.last() == all.last());
    } else {
        assert(s.last() == fresh.last());
    }
}

/// A key set behind the last line that is not blank.
proof fn lemma_key_on_body(
    front: Seq<char>,
    kept: Seq<char>,
    tail: Seq<char>,
    k: Seq<char>,
    v: Seq<char>,
    eol: Seq<char>,
)
    requires
        plain_pair(k, v),
        eol == "\n"@ || eol == "\r\n"@,
        ends_line(front),
        all_space(tail),
        sections_from(read(front), lines_incl(kept + tail)).len() > 0,
        free_of(sections_from(read(front), lines_incl(kept + tail)).last().keys, k),
    ensures
        ({
            let acc = sections_from(read(front), lines_incl(kept + tail));
            read(front + (kept + eol + assignment(k, v) + tail)) == with_key(
                acc,
                acc.len() - 1,
                k,
                v,
            )
        }),
{
    let e = Seq::<SectionView>::empty();
    lemma_eol(eol);
    let line = assignment(k, v);
    let none = Seq::<char>::empty();
    let acc = sections_from(read(front), lines_incl(kept + tail));
    let p = front + kept + eol;
    assert(p.last() == eol.last());
    lemma_space_tail(e, front + kept, eol);
    lemma_space_tail(e, front + kept, tail);
    assert(front + kept + tail =~= front + (kept + tail));
    lemma_lines_incl_append(front, kept + tail);
    lemma_sections_append(e, lines_incl(front), lines_incl(kept + tail));
    assert(read(p) == acc);
    lemma_assignment_reads(k, v, none);
    assert(line + none =~= line);
    lemma_plain_line(k, v, none);
    lemma_lines_incl_one(line);
    lemma_lines_incl_append(p, line);
    lemma_sections_append(e, lines_incl(p), seq![line]);
    lemma_sections_one(acc, line);
    lemma_space_tail(e, p + line, tail);
    assert(front + (kept + eol + line + tail) =~= p + line + tail);
    lemma_rekeyed_free(acc.last().keys, k, v);
    assert(step(acc, line) =~= with_key(acc, acc.len() - 1, k, v));
}

/// [`law_replace_key`] where no line of the section sets the key.
proof fn lemma_key_appended(content: Seq<char>, section: Seq<char>, k: Seq<char>, v: Seq<char>)
    requires
        ({
            let ls = lines_incl(content);
            let h = header_from(ls, section, 0);
            let end = opening_from(ls, h + 1);
            key_from(ls.subrange(h + 1, end), k, 0) >= end - (h + 1)
        }),
        plain_pair(k, v),
        section_at(read(content), section) >= 0,
        held_once(content, section, k),
    ensures
        read(key_set(content, section, k, v)) == with_key(
            read(content),
            section_at(read(content), section),
            k,
            v,
        ),
{
    let e = Seq::<SectionView>::empty();
    let eol = eol_of(content);
    lemma_eol(content);
    let ls = lines_incl(content);
    let h = header_from(ls, section, 0);
    lemma_header_front(content, section);
    let end = opening_from(ls, h + 1);
    let body = ls.subrange(h + 1, end);
    lemma_key_from(body, k, 0);
    let front = front_of(content, section);
    let first = sections_from(e, ls.take(h + 1));
    let rest = ls.subrange(end, ls.len() as int);
    assert(rest =~= ls.skip(end));
    lemma_lines_range(content, end, ls.len() as int);
    lemma_lines_range(content, h + 1, end);
    let all = concat(body);
    let kept = without_line_ends(all);
    let tail = all.skip(kept.len() as int);
    lemma_line_ends_are_space(all);
    assert(kept + tail =~= all);
    let acc = sections_from(first, body);
    lemma_body_free(first, body, ls, h + 1, k);
    let written = body_with_key(body, k, assignment(k, v), eol);
    let i = acc.len() - 1;
    if kept.len() == 0 {
        assert(tail =~= all);
        lemma_key_on_blank(front, all, k, v, eol);
    } else {
        lemma_key_on_body(front, kept, tail, k, v, eol);
    }
    assert(read(front + written) == with_key(acc, i, k, v));
    let out = key_set(content, section, k, v);
    assert(out =~= front + written + concat(rest));
    assert(read(out) == sections_from(with_key(acc, i, k, v), rest)) by {
        if rest.len() > 0 {
            assert(ends_line(front + written)) by {
                if kept.len() > 0 {
                    assert(all.last() == '\n');
                    lemma_line_ends_are_space(all.drop_last());
                    assert(tail.len() > 0);
                    assert((front + written).last() == tail.last());
                    assert(tail.last() == all.last());
                }
            }
            lemma_lines_incl_append(front + written, concat(rest));
            lemma_sections_append(e, lines_incl(front + written), rest);
        } else {
            assert(front + written + concat(rest) =~= front + written);
        }
    }
    assert(read(content) == sections_from(acc, rest)) by {
        assert(ls =~= ls.take(h + 1) + body + rest);
        lemma_sections_append(e, ls.take(h + 1) + body, rest);
        lemma_sections_append(e, ls.take(h + 1), body);
    }
    lemma_key_commutes(acc, rest, k, v);
}

/// Setting a key of a section that is there: the reader sees the section with that
/// key set to that value, in that spelling and no other, and everything else as it
/// was. This is said of a key that the section holds once at most.
pub proof fn law_replace_key(content: Seq<char>, section: Seq<char>, k: Seq<char>, v: Seq<char>)
    requires
        plain_pair(k, v),
        section_at(read(content), section) >= 0,
        held_once(content, section, k),
    ensures
        read(key_set(content, section, k, v)) == with_key(
            read(content),
            section_at(read(content), section),
            k,
            v,
        ),
{
    let ls = lines_incl(content);
    let h = header_from(ls, section, 0);
    let end = opening_from(ls, h + 1);
    if key_from(ls.subrange(h + 1, end), k, 0) < end - (h + 1) {
        lemma_key_rewritten(content, section, k, v);
    } else {
        lemma_key_appended(content, section, k, v);
    }
}

/// A key's line has no line feed before its end.
pub proof fn lemma_plain_line(k: Seq<char>, v: Seq<char>, end: Seq<char>)
    requires
        plain_pair(k, v),
        end == "\n"@ || end == "\r\n"@ || end.len() == 0,
    ensures
        (assignment(k, v) + end).len() > 0,
        forall|i: int|
            0 <= i < (assignment(k, v) + end).len() - 1 ==> (assignment(k, v) + end)[i] != '\n',
{
    reveal_strlit(" = ");
    reveal_strlit("\n");
    reveal_strlit("\r\n");
    let s = assignment(k, v) + end;
    assert forall|i: int| 0 <= i < s.len() - 1 implies s[i] != '\n' by {
        if i < k.len() {
            assert(s[i] == k[i]);
            assert(k.contains(k[i]));
        } else if k.len() + 3 <= i < k.len() + 3 + v.len() {
            assert(s[i] == v[i - k.len() - 3]);
            assert(v.contains(v[i - k.len() - 3]));
        }
    }
}

/// The lines of a body open no section.
proof fn lemma_body_keeps(
    first: Seq<SectionView>,
    body: Seq<Seq<char>>,
    ls: Seq<Seq<char>>,
    from: int,
)
    requires
        0 < first.len(),
        0 <= from,
        from + body.len() <= opening_from(ls, from) <= ls.len(),
        from <= ls.len(),
        body == ls.subrange(from, from + body.len()),
    ensures
        sections_from(first, body).len() == first.len(),
    decreases body.len(),
{
    lemma_opening_from(ls, from);
    if body.len() > 0 {
        let init = body.drop_last();
        assert(init =~= ls.subrange(from, from + init.len()));
        lemma_body_keeps(first, init, ls, from);
        assert(body.last() == ls[from + body.len() - 1]);
        if header_name(body.last()) is Some {
            lemma_header_opens(body.last());
        }
    }
}

/// Setting a key of a section that is not there adds the section, with that key
/// alone, behind the others.
#[verifier::rlimit(60)]
#[verifier::spinoff_prover]
pub proof fn law_replace_key_adds_section(
    content: Seq<char>,
    section: Seq<char>,
    k: Seq<char>,
    v: Seq<char>,
)
    requires
        plain_pair(k, v),
        !section.contains('\n'),
        section_at(read(content), section) < 0,
    ensures
        read(key_set(content, section, k, v)) == read(content).push(
            SectionView { id: trim(section), keys: Map::empty().insert(k, v) },
        ),
{
    let e = Seq::<SectionView>::empty();
    let eol = eol_of(content);
    lemma_eol(content);
    law_writers_find_what_the_reader_sees(content, section);
    lemma_header_from(lines_incl(content), section, 0);
    let gap = (if ends_line(content) {
        Seq::<char>::empty()
    } else {
        eol
    }) + (if content.len() == 0 {
        Seq::<char>::empty()
    } else {
        eol
    });
    assert(all_space(gap)) by {
        assert forall|i: int| 0 <= i < gap.len() implies is_space(#[trigger] gap[i]) by {
            if i < eol.len() {
                assert(gap[i] == eol[i]);
            } else {
                assert(gap[i] == eol[i - eol.len()]);
            }
        }
    }
    reveal_strlit("[");
    reveal_strlit("]");
    let core = "["@ + section + "]"@;
    let header = core + eol;
    let none = Seq::<char>::empty();
    lemma_trim_core(none, core, eol);
    assert(none + core + eol =~= header);
    assert(core.subrange(1, core.len() - 1) =~= section);
    assert(header_name(header) == Some(trim(section)));
    assert forall|i: int| 0 <= i < header.len() - 1 implies header[i] != '\n' by {
        if 1 <= i < core.len() - 1 {
            assert(section.contains(section[i - 1]));
        }
    }
    lemma_lines_incl_one(header);
    let line = assignment(k, v) + eol;
    lemma_assignment_reads(k, v, eol);
    lemma_plain_line(k, v, eol);
    lemma_lines_incl_one(line);
    let front = content + gap;
    assert(ends_line(front)) by {
        if content.len() > 0 {
            assert(front.last() == eol.last());
        } else {
            assert(front =~= none);
        }
    }
    lemma_space_tail(e, content, gap);
    lemma_lines_incl_append(front, header + line);
    lemma_lines_incl_append(header, line);
    assert(key_set(content, section, k, v) =~= front + (header + line));
    lemma_sections_append(e, lines_incl(front), seq![header] + seq![line]);
    lemma_sections_append(read(content), seq![header], seq![line]);
    lemma_sections_one(read(content), header);
    let opened = step(read(content), header);
    lemma_sections_one(opened, line);
    assert(opened.drop_last() =~= read(content));
    assert(step(opened, line) =~= read(content).push(
        SectionView { id: trim(section), keys: Map::empty().insert(k, v) },
    ));
}

} // verus!
