//! What writing an INI text does to its line endings: every writer of
//! [`crate::ini`] keeps them.
use vstd::prelude::*;
use crate::ini::{
    assignment, body_with_key, end_of, eol_of, header_from, header_name, is_header_of, key_from,
    key_set, opening_from, renamed_line, section_deleted, section_renamed, section_set,
    section_text, tidied, with_eol, without_line_ends,
};
use crate::text::{
    concat, ends_line, find, find_char, is_space, lemma_find_char, lemma_find_from,
    lemma_trim_end_shape, lemma_trim_start_shape, lines_incl, occurs_at, replace_all, trim,
    trim_end, trim_start,
};

verus! {

/// Whether a character is as a style of line endings has it: with bare line feeds
/// there is no carriage return, otherwise there is one before every line feed.
pub open spec fn end_at(s: Seq<char>, i: int, bare: bool) -> bool {
    if bare {
        s[i] != '\r'
    } else {
        s[i] == '\n' ==> i > 0 && s[i - 1] == '\r'
    }
}

/// Whether a text has one style of line endings throughout.
pub open spec fn styled(s: Seq<char>, bare: bool) -> bool {
    forall|i: int| 0 <= i < s.len() ==> #[trigger] end_at(s, i, bare)
}

/// Whether a text has the style that its writers will use: bare line feeds where it
/// has some, and carriage returns before them in any other.
pub open spec fn consistent(s: Seq<char>, bare: bool) -> bool {
    styled(s, bare) && (bare ==> s.contains('\n'))
}

proof fn lemma_eol_styled(content: Seq<char>, bare: bool)
    requires
        consistent(content, bare),
    ensures
        eol_of(content) == if bare {
            "\n"@
        } else {
            "\r\n"@
        },
        styled(eol_of(content), bare),
{
    reveal_strlit("\n");
    reveal_strlit("\r\n");
    let crlf = "\r\n"@;
    if bare {
        if exists|i: int| #[trigger] occurs_at(content, crlf, i) {
            let i = choose|i: int| #[trigger] occurs_at(content, crlf, i);
            assert(content.subrange(i, i + 2)[0] == '\r');
            assert(end_at(content, i, bare));
        }
    } else if content.contains('\n') {
        let i = choose|i: int| 0 <= i < content.len() && content[i] == '\n';
        assert(end_at(content, i, bare));
        assert(content.subrange(i - 1, i + 1) =~= crlf);
        assert(occurs_at(content, crlf, i - 1));
    }
}

proof fn lemma_add(a: Seq<char>, b: Seq<char>, bare: bool)
    requires
        styled(a, bare),
        styled(b, bare),
    ensures
        styled(a + b, bare),
{
    let s = a + b;
    assert forall|i: int| 0 <= i < s.len() implies #[trigger] end_at(s, i, bare) by {
        if i < a.len() {
            assert(end_at(a, i, bare));
        } else {
            assert(end_at(b, i - a.len(), bare));
        }
    }
}

proof fn lemma_take(s: Seq<char>, n: int, bare: bool)
    requires
        styled(s, bare),
        0 <= n <= s.len(),
    ensures
        styled(s.take(n), bare),
{
    assert forall|i: int| 0 <= i < n implies #[trigger] end_at(s.take(n), i, bare) by {
        assert(end_at(s, i, bare));
    }
}

proof fn lemma_skip(s: Seq<char>, n: int, bare: bool)
    requires
        styled(s, bare),
        0 <= n <= s.len(),
        n == 0 || s[n - 1] != '\r',
    ensures
        styled(s.skip(n), bare),
{
    let t = s.skip(n);
    assert forall|i: int| 0 <= i < t.len() implies #[trigger] end_at(t, i, bare) by {
        assert(end_at(s, n + i, bare));
    }
}

/// The lines of a text have its style.
proof fn lemma_lines(s: Seq<char>, bare: bool)
    requires
        styled(s, bare),
    ensures
        forall|i: int| 0 <= i < lines_incl(s).len() ==> styled(#[trigger] lines_incl(s)[i], bare),
    decreases s.len(),
{
    let i = find_char(s, '\n');
    lemma_find_char(s, '\n');
    if s.len() > 0 && i < s.len() {
        lemma_take(s, i + 1, bare);
        lemma_skip(s, i + 1, bare);
        lemma_lines(s.skip(i + 1), bare);
        let rest = lines_incl(s.skip(i + 1));
        assert forall|j: int| 0 <= j < lines_incl(s).len() implies styled(
            #[trigger] lines_incl(s)[j],
            bare,
        ) by {
            if j > 0 {
                assert(lines_incl(s)[j] == rest[j - 1]);
            }
        }
    }
}

proof fn lemma_concat(v: Seq<Seq<char>>, bare: bool)
    requires
        forall|i: int| 0 <= i < v.len() ==> styled(#[trigger] v[i], bare),
    ensures
        styled(concat(v), bare),
    decreases v.len(),
{
    if v.len() > 0 {
        let init = v.drop_last();
        assert forall|i: int| 0 <= i < init.len() implies styled(#[trigger] init[i], bare) by {
            assert(init[i] == v[i]);
        }
        lemma_concat(init, bare);
        assert(v.last() == v[v.len() - 1]);
        lemma_add(concat(init), v.last(), bare);
    }
}

/// Some lines of a text in a row.
proof fn lemma_range(s: Seq<char>, lo: int, hi: int, bare: bool)
    requires
        styled(s, bare),
        0 <= lo <= hi <= lines_incl(s).len(),
    ensures
        styled(concat(lines_incl(s).subrange(lo, hi)), bare),
{
    lemma_lines(s, bare);
    let v = lines_incl(s).subrange(lo, hi);
    assert forall|i: int| 0 <= i < v.len() implies styled(#[trigger] v[i], bare) by {
        assert(v[i] == lines_incl(s)[lo + i]);
    }
    lemma_concat(v, bare);
}

proof fn lemma_header_bound(ls: Seq<Seq<char>>, name: Seq<char>, from: int)
    requires
        0 <= from <= ls.len(),
    ensures
        from <= header_from(ls, name, from) <= ls.len(),
        header_from(ls, name, from) < ls.len() ==> is_header_of(ls[header_from(ls, name, from)], name),
    decreases ls.len() - from,
{
    if from < ls.len() && !is_header_of(ls[from], name) {
        lemma_header_bound(ls, name, from + 1);
    }
}

proof fn lemma_opening_bound(ls: Seq<Seq<char>>, from: int)
    requires
        0 <= from <= ls.len(),
    ensures
        from <= opening_from(ls, from) <= ls.len(),
    decreases ls.len() - from,
{
    if opening_from(ls, from) != from {
        lemma_opening_bound(ls, from + 1);
    }
}

proof fn lemma_key_bound(ls: Seq<Seq<char>>, key: Seq<char>, from: int)
    requires
        0 <= from <= ls.len(),
    ensures
        from <= key_from(ls, key, from) <= ls.len(),
    decreases ls.len() - from,
{
    if key_from(ls, key, from) != from {
        lemma_key_bound(ls, key, from + 1);
    }
}

proof fn lemma_without_ends(s: Seq<char>)
    ensures
        without_line_ends(s).len() <= s.len(),
        without_line_ends(s) == s.take(without_line_ends(s).len() as int),
        without_line_ends(s).len() > 0 ==> without_line_ends(s).last() != '\r',
    decreases s.len(),
{
    if s.len() > 0 && (s.last() == '\r' || s.last() == '\n') {
        lemma_without_ends(s.drop_last());
        let n = without_line_ends(s).len() as int;
        assert(s.drop_last().take(n) =~= s.take(n));
    } else {
        assert(s.take(s.len() as int) =~= s);
    }
}

proof fn lemma_literals(bare: bool)
    ensures
        styled("["@, bare),
        styled("]"@, bare),
        styled(" = "@, bare),
        styled(Seq::<char>::empty(), bare),
{
    reveal_strlit("[");
    reveal_strlit("]");
    reveal_strlit(" = ");
}

proof fn lemma_body(body: Seq<Seq<char>>, key: Seq<char>, line: Seq<char>, eol: Seq<char>, bare: bool)
    requires
        forall|i: int| 0 <= i < body.len() ==> styled(#[trigger] body[i], bare),
        styled(line, bare),
        styled(eol, bare),
    ensures
        styled(body_with_key(body, key, line, eol), bare),
{
    reveal_strlit("\n");
    reveal_strlit("\r\n");
    let at = key_from(body, key, 0);
    lemma_key_bound(body, key, 0);
    if at < body.len() {
        let a = body.take(at);
        let b = body.skip(at + 1);
        assert forall|i: int| 0 <= i < a.len() implies styled(#[trigger] a[i], bare) by {
            assert(a[i] == body[i]);
        }
        assert forall|i: int| 0 <= i < b.len() implies styled(#[trigger] b[i], bare) by {
            assert(b[i] == body[at + 1 + i]);
        }
        lemma_concat(a, bare);
        lemma_concat(b, bare);
        let l = body[at];
        assert(styled(end_of(l, eol), bare)) by {
            if l.len() > 0 {
                assert(end_at(l, l.len() - 1, bare));
            }
            if l.len() > 1 {
                assert(end_at(l, l.len() - 2, bare));
            }
        }
        lemma_add(concat(a), line, bare);
        lemma_add(concat(a) + line, end_of(l, eol), bare);
        lemma_add(concat(a) + line + end_of(l, eol), concat(b), bare);
    } else {
        let all = concat(body);
        lemma_concat(body, bare);
        let kept = without_line_ends(all);
        lemma_without_ends(all);
        lemma_take(all, kept.len() as int, bare);
        let tail = all.skip(kept.len() as int);
        lemma_skip(all, kept.len() as int, bare);
        if kept.len() == 0 {
            lemma_add(line, eol, bare);
            lemma_add(line + eol, tail, bare);
        } else {
            lemma_add(kept, eol, bare);
            lemma_add(kept + eol, line, bare);
            lemma_add(kept + eol + line, tail, bare);
        }
    }
}

/// Setting a key keeps the line endings of a text: one with bare line feeds gains no
/// carriage return, and in any other every line feed stays behind one.
pub proof fn law_key_keeps_line_ends(
    content: Seq<char>,
    section: Seq<char>,
    k: Seq<char>,
    v: Seq<char>,
    bare: bool,
)
    requires
        consistent(content, bare),
        styled(section, bare),
        styled(k, bare),
        styled(v, bare),
    ensures
        styled(key_set(content, section, k, v), bare),
{
    let eol = eol_of(content);
    lemma_eol_styled(content, bare);
    lemma_literals(bare);
    let none = Seq::<char>::empty();
    let line = assignment(k, v);
    lemma_add(k, " = "@, bare);
    lemma_add(k + " = "@, v, bare);
    let ls = lines_incl(content);
    let h = header_from(ls, section, 0);
    lemma_header_bound(ls, section, 0);
    if h >= ls.len() {
        let gap = if ends_line(content) {
            none
        } else {
            eol
        };
        let more = if content.len() == 0 {
            none
        } else {
            eol
        };
        let a = content + gap;
        lemma_add(content, gap, bare);
        lemma_add(a, more, bare);
        lemma_add(a + more, "["@, bare);
        lemma_add(a + more + "["@, section, bare);
        lemma_add(a + more + "["@ + section, "]"@, bare);
        lemma_add(a + more + "["@ + section + "]"@, eol, bare);
        lemma_add(a + more + "["@ + section + "]"@ + eol, line, bare);
        lemma_add(a + more + "["@ + section + "]"@ + eol + line, eol, bare);
    } else {
        let end = opening_from(ls, h + 1);
        lemma_opening_bound(ls, h + 1);
        let body = ls.subrange(h + 1, end);
        lemma_lines(content, bare);
        assert forall|i: int| 0 <= i < body.len() implies styled(#[trigger] body[i], bare) by {
            assert(body[i] == ls[h + 1 + i]);
        }
        lemma_body(body, k, line, eol, bare);
        lemma_range(content, 0, h + 1, bare);
        lemma_range(content, end, ls.len() as int, bare);
        assert(ls.take(h + 1) =~= ls.subrange(0, h + 1));
        assert(ls.skip(end) =~= ls.subrange(end, ls.len() as int));
        let front = concat(ls.take(h + 1));
        let gap = if ls[h].last() == '\n' {
            none
        } else {
            eol
        };
        let written = body_with_key(body, k, line, eol);
        lemma_add(front, gap, bare);
        lemma_add(front + gap, written, bare);
        lemma_add(front + gap + written, concat(ls.skip(end)), bare);
    }
}

/// A text in which every carriage return stands before a line feed.
pub open spec fn returns_paired(s: Seq<char>) -> bool {
    forall|i: int| 0 <= i < s.len() && #[trigger] s[i] == '\r' ==> i + 1 < s.len() && s[i + 1] == '\n'
}

proof fn lemma_returns_go(s: Seq<char>)
    requires
        returns_paired(s),
    ensures
        styled(replace_all(s, "\r\n"@, "\n"@), true),
    decreases s.len(),
{
    reveal_strlit("\r\n");
    reveal_strlit("\n");
    let crlf = "\r\n"@;
    lemma_find_from(s, crlf, 0);
    match find(s, crlf) {
        Some(i) => {
            assert forall|j: int| 0 <= j < i implies #[trigger] end_at(s.take(i), j, true) by {
                if s[j] == '\r' {
                    assert(s.subrange(j, j + 2) =~= crlf);
                    assert(occurs_at(s, crlf, j));
                }
            }
            let rest = s.skip(i + 2);
            assert forall|j: int| 0 <= j < rest.len() && #[trigger] rest[j] == '\r' implies j + 1
                < rest.len() && rest[j + 1] == '\n' by {
                assert(s[i + 2 + j] == '\r');
            }
            lemma_returns_go(rest);
            lemma_add(s.take(i), "\n"@, true);
            lemma_add(s.take(i) + "\n"@, replace_all(rest, crlf, "\n"@), true);
        },
        None => {
            assert forall|j: int| 0 <= j < s.len() implies #[trigger] end_at(s, j, true) by {
                if s[j] == '\r' {
                    assert(s.subrange(j, j + 2) =~= crlf);
                    assert(occurs_at(s, crlf, j));
                }
            }
        },
    }
}

proof fn lemma_returns_come(s: Seq<char>)
    ensures
        styled(replace_all(s, "\n"@, "\r\n"@), false),
    decreases s.len(),
{
    reveal_strlit("\r\n");
    reveal_strlit("\n");
    let lf = "\n"@;
    lemma_find_from(s, lf, 0);
    match find(s, lf) {
        Some(i) => {
            assert forall|j: int| 0 <= j < i implies #[trigger] end_at(s.take(i), j, false) by {
                if s[j] == '\n' {
                    assert(s.subrange(j, j + 1) =~= lf);
                    assert(occurs_at(s, lf, j));
                }
            }
            let rest = s.skip(i + 1);
            lemma_returns_come(rest);
            lemma_add(s.take(i), "\r\n"@, false);
            lemma_add(s.take(i) + "\r\n"@, replace_all(rest, lf, "\r\n"@), false);
        },
        None => {
            assert forall|j: int| 0 <= j < s.len() implies #[trigger] end_at(s, j, false) by {
                if s[j] == '\n' {
                    assert(s.subrange(j, j + 1) =~= lf);
                    assert(occurs_at(s, lf, j));
                }
            }
        },
    }
}

proof fn lemma_section_text(body: Seq<char>, bare: bool)
    requires
        bare ==> returns_paired(body),
    ensures
        ({
            let eol = if bare {
                "\n"@
            } else {
                "\r\n"@
            };
            styled(section_text(body, eol), bare)
        }),
{
    reveal_strlit("\r\n");
    reveal_strlit("\n");
    assert("\r\n"@.len() == 2 && "\n"@.len() == 1);
    let eol = if bare {
        "\n"@
    } else {
        "\r\n"@
    };
    let b = trim_end(body);
    lemma_trim_end_shape(body);
    if bare {
        assert forall|i: int| 0 <= i < b.len() && #[trigger] b[i] == '\r' implies i + 1 < b.len()
            && b[i + 1] == '\n' by {
            assert(body[i] == '\r');
            assert(i != b.len() - 1);
        }
        lemma_returns_go(b);
    } else {
        lemma_returns_come(replace_all(b, "\r\n"@, "\n"@));
    }
    lemma_add(with_eol(b, eol), eol, bare);
}

/// Writing a section keeps the line endings of a text, whichever way the lines of the
/// section came ended.
pub proof fn law_section_keeps_line_ends(content: Seq<char>, name: Seq<char>, body: Seq<char>, bare: bool)
    requires
        consistent(content, bare),
        bare ==> returns_paired(body),
    ensures
        styled(section_set(content, name, body), bare),
{
    let eol = eol_of(content);
    lemma_eol_styled(content, bare);
    lemma_section_text(body, bare);
    lemma_literals(bare);
    let none = Seq::<char>::empty();
    let fresh = section_text(body, eol);
    let ls = lines_incl(content);
    let h = header_from(ls, name, 0);
    lemma_header_bound(ls, name, 0);
    if h >= ls.len() {
        let kept = without_line_ends(content);
        lemma_without_ends(content);
        lemma_take(content, kept.len() as int, bare);
        lemma_add(kept, eol, bare);
        lemma_add(kept + eol, eol, bare);
        let front = if content.len() == 0 {
            none
        } else {
            kept + eol + eol
        };
        lemma_add(front, fresh, bare);
    } else {
        let next = opening_from(ls, h + 1);
        lemma_opening_bound(ls, h + 1);
        lemma_range(content, 0, h, bare);
        lemma_range(content, next, ls.len() as int, bare);
        assert(ls.take(h) =~= ls.subrange(0, h));
        assert(ls.skip(next) =~= ls.subrange(next, ls.len() as int));
        let gap = if next >= ls.len() {
            none
        } else {
            eol
        };
        lemma_add(concat(ls.take(h)), fresh, bare);
        lemma_add(concat(ls.take(h)) + fresh, gap, bare);
        lemma_add(concat(ls.take(h)) + fresh + gap, concat(ls.skip(next)), bare);
    }
}

/// Renaming a section keeps the line endings of a text.
pub proof fn law_rename_keeps_line_ends(content: Seq<char>, old_name: Seq<char>, new: Seq<char>, bare: bool)
    requires
        styled(content, bare),
        styled(new, bare),
        section_renamed(content, old_name, new) is Ok,
    ensures
        styled(section_renamed(content, old_name, new)->Ok_0, bare),
{
    let ls = lines_incl(content);
    let h = header_from(ls, old_name, 0);
    lemma_header_bound(ls, old_name, 0);
    lemma_literals(bare);
    lemma_lines(content, bare);
    let line = ls[h];
    assert(header_name(line) is Some);
    let start = line.len() - trim_start(line).len();
    let end = start + trim(line).len();
    lemma_trim_start_shape(line);
    lemma_trim_end_shape(trim_start(line));
    assert(line[end - 1] == trim(line).last());
    assert(is_space('\r'));
    lemma_take(line, start, bare);
    lemma_skip(line, end, bare);
    let a = line.take(start);
    lemma_add(a, "["@, bare);
    lemma_add(a + "["@, new, bare);
    lemma_add(a + "["@ + new, "]"@, bare);
    lemma_add(a + "["@ + new + "]"@, line.skip(end), bare);
    lemma_range(content, 0, h, bare);
    lemma_range(content, h + 1, ls.len() as int, bare);
    assert(ls.take(h) =~= ls.subrange(0, h));
    assert(ls.skip(h + 1) =~= ls.subrange(h + 1, ls.len() as int));
    lemma_add(concat(ls.take(h)), renamed_line(line, new), bare);
    lemma_add(concat(ls.take(h)) + renamed_line(line, new), concat(ls.skip(h + 1)), bare);
}

/// Replacing whole line ends by fewer of them keeps a style.
proof fn lemma_squeezed(s: Seq<char>, from: Seq<char>, to: Seq<char>, bare: bool)
    requires
        styled(s, bare),
        styled(to, bare),
        from.len() > 0,
        from.last() == '\n',
    ensures
        styled(replace_all(s, from, to), bare),
    decreases s.len(),
{
    lemma_find_from(s, from, 0);
    if let Some(i) = find(s, from) {
        let n = i + from.len();
        let rest = s.skip(n);
        assert(s.subrange(i, n).last() == s[n - 1]);
        lemma_take(s, i, bare);
        lemma_skip(s, n, bare);
        lemma_squeezed(rest, from, to, bare);
        lemma_add(s.take(i), to, bare);
        lemma_add(s.take(i) + to, replace_all(rest, from, to), bare);
    }
}

/// Deleting a section keeps the line endings of a text.
pub proof fn law_delete_keeps_line_ends(content: Seq<char>, name: Seq<char>, bare: bool)
    requires
        styled(content, bare),
        section_deleted(content, name) is Some,
    ensures
        styled(section_deleted(content, name)->0, bare),
{
    reveal_strlit("\r\n\r\n\r\n");
    reveal_strlit("\r\n\r\n");
    reveal_strlit("\n\n\n");
    reveal_strlit("\n\n");
    let ls = lines_incl(content);
    let h = header_from(ls, name, 0);
    lemma_header_bound(ls, name, 0);
    let next = opening_from(ls, h + 1);
    lemma_opening_bound(ls, h + 1);
    lemma_range(content, 0, h, bare);
    lemma_range(content, next, ls.len() as int, bare);
    assert(ls.take(h) =~= ls.subrange(0, h));
    assert(ls.skip(next) =~= ls.subrange(next, ls.len() as int));
    let s = concat(ls.take(h)) + concat(ls.skip(next));
    lemma_add(concat(ls.take(h)), concat(ls.skip(next)), bare);
    let wide = "\r\n\r\n\r\n"@;
    let once = replace_all(s, wide, "\r\n\r\n"@);
    if bare {
        lemma_absent(s, wide, 0, bare);
        lemma_squeezed(once, "\n\n\n"@, "\n\n"@, bare);
    } else {
        lemma_squeezed(s, wide, "\r\n\r\n"@, bare);
        lemma_absent(once, "\n\n\n"@, 1, bare);
    }
    assert(section_deleted(content, name)->0 == tidied(s));
}

/// What a style does not have is not found, and so not replaced.
proof fn lemma_absent(s: Seq<char>, from: Seq<char>, at: int, bare: bool)
    requires
        styled(s, bare),
        0 <= at < from.len(),
        bare ==> from[at] == '\r',
        !bare ==> at > 0 && from[at] == '\n' && from[at - 1] == '\n',
    ensures
        find(s, from) is None,
        forall|to: Seq<char>| #[trigger] replace_all(s, from, to) == s,
{
    lemma_find_from(s, from, 0);
    if let Some(i) = find(s, from) {
        let part = s.subrange(i, i + from.len());
        assert(part[at] == s[i + at]);
        assert(end_at(s, i + at, bare));
        if at > 0 {
            assert(part[at - 1] == s[i + at - 1]);
        }
    }
}

} // verus!
