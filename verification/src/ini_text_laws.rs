//! What an edit of an INI text leaves untouched, character by character, and what the
//! reader makes of comments.
use vstd::prelude::*;
use vstd::string::*;
use crate::ini::{
    assignment, end_of, eol_of, first_marker, header_from, is_header_of, is_marker, key_from, key_set, opening_from,
    opens_section, section_deleted, section_renamed, section_set, sets_key, step, without_comment, without_line_ends,
    SectionView,
};
use crate::ini_laws::{lemma_header_from, lemma_key_from, lemma_opening_from};
use crate::text::{
    concat, contains, ends_line, lemma_concat_append, lemma_concat_lines, lemma_concat_one, lemma_find_contains,
    lines_incl, occurs_at, trim, trim_end, trim_start,
};

verus! {

/// An edit of a text: what stands before it, what goes, what comes, what stands behind.
pub struct Edit {
    pub front: Seq<char>,
    pub gone: Seq<char>,
    pub new: Seq<char>,
    pub rest: Seq<char>,
}

/// Whether one text is another one after an edit.
pub open spec fn is_edited(before: Seq<char>, after: Seq<char>, e: Edit) -> bool {
    before == e.front + e.gone + e.rest && after == e.front + e.new + e.rest
}

proof fn lemma_concat_three(ls: Seq<Seq<char>>, i: int, j: int)
    requires
        0 <= i <= j <= ls.len(),
    ensures
        concat(ls) == concat(ls.take(i)) + concat(ls.subrange(i, j)) + concat(ls.skip(j)),
{
    assert(ls =~= ls.take(i) + ls.subrange(i, j) + ls.skip(j));
    lemma_concat_append(ls.take(i) + ls.subrange(i, j), ls.skip(j));
    lemma_concat_append(ls.take(i), ls.subrange(i, j));
}

proof fn lemma_kept_front(s: Seq<char>)
    ensures
        without_line_ends(s).len() <= s.len(),
        s == without_line_ends(s) + s.skip(without_line_ends(s).len() as int),
        s.take(without_line_ends(s).len() as int) == without_line_ends(s),
    decreases s.len(),
{
    if s.len() > 0 && (s.last() == '\r' || s.last() == '\n') {
        lemma_kept_front(s.drop_last());
        let k = without_line_ends(s);
        assert(s.take(k.len() as int) =~= s.drop_last().take(k.len() as int));
        assert(s =~= s.take(k.len() as int) + s.skip(k.len() as int));
    } else {
        assert(s.take(s.len() as int) =~= s);
        assert(s =~= s + s.skip(s.len() as int));
    }
}

/// An edit that puts a line in.
proof fn lemma_insertion(front: Seq<char>, pre: Seq<char>, line: Seq<char>, post: Seq<char>, rest: Seq<char>) -> (e:
    Edit)
    ensures
        is_edited(front + rest, front + (pre + line + post) + rest, e),
        e.gone.len() == 0,
        contains(e.new, line),
{
    let none = Seq::<char>::empty();
    let new = pre + line + post;
    let at = pre.len() as int;
    assert(new.subrange(at, at + line.len()) =~= line);
    assert(occurs_at(new, line, at));
    let e = Edit { front, gone: none, new, rest };
    assert(front + rest =~= front + none + rest);
    e
}

proof fn lemma_key_in_new_section(
    content: Seq<char>,
    section: Seq<char>,
    key: Seq<char>,
    value: Seq<char>,
) -> (e: Edit)
    requires
        header_from(lines_incl(content), section, 0) >= lines_incl(content).len(),
    ensures
        is_edited(content, key_set(content, section, key, value), e),
        e.gone.len() == 0,
        contains(e.new, assignment(key, value)),
{
    let eol = eol_of(content);
    let line = assignment(key, value);
    let none = Seq::<char>::empty();
    let g1 = if ends_line(content) {
        none
    } else {
        eol
    };
    let g2 = if content.len() == 0 {
        none
    } else {
        eol
    };
    let pre = g1 + g2 + "["@ + section + "]"@ + eol;
    assert(key_set(content, section, key, value) =~= content + (pre + line + eol) + none);
    assert(content =~= content + none);
    lemma_insertion(content, pre, line, eol, none)
}

proof fn lemma_key_on_its_line(
    content: Seq<char>,
    section: Seq<char>,
    key: Seq<char>,
    value: Seq<char>,
) -> (e: Edit)
    requires
        ({
            let ls = lines_incl(content);
            let h = header_from(ls, section, 0);
            let body = ls.subrange(h + 1, opening_from(ls, h + 1));
            h < ls.len() && key_from(body, key, 0) < body.len()
        }),
    ensures
        is_edited(content, key_set(content, section, key, value), e),
        sets_key(e.gone, key) && lines_incl(content).contains(e.gone),
        contains(e.new, assignment(key, value)),
{
    let ls = lines_incl(content);
    let h = header_from(ls, section, 0);
    let eol = eol_of(content);
    let line = assignment(key, value);
    lemma_concat_lines(content);
    lemma_header_from(ls, section, 0);
    lemma_opening_from(ls, h + 1);
    let end = opening_from(ls, h + 1);
    let body = ls.subrange(h + 1, end);
    let at = key_from(body, key, 0);
    lemma_key_from(body, key, 0);
    lemma_concat_three(ls, h + 1, end);
    lemma_concat_three(body, at, at + 1);
    assert(body.subrange(at, at + 1) =~= seq![body[at]]);
    lemma_concat_one(body[at]);
    lemma_only_last_is_open(content, h);
    let head = concat(ls.take(h + 1));
    let tail = concat(ls.skip(end));
    let a = concat(body.take(at));
    let z = concat(body.skip(at + 1));
    let fin = end_of(body[at], eol);
    let new = line + fin;
    assert(new.subrange(0, line.len() as int) =~= line);
    assert(occurs_at(new, line, 0));
    let e = Edit { front: head + a, gone: body[at], new, rest: z + tail };
    assert(content == head + (a + body[at] + z) + tail);
    assert(content =~= e.front + e.gone + e.rest);
    assert(key_set(content, section, key, value) == head + Seq::<char>::empty() + (a + line + fin + z)
        + tail);
    assert(key_set(content, section, key, value) =~= e.front + e.new + e.rest);
    assert(ls[h + 1 + at] == body[at]);
    e
}

proof fn lemma_key_behind_the_others(
    content: Seq<char>,
    section: Seq<char>,
    key: Seq<char>,
    value: Seq<char>,
) -> (e: Edit)
    requires
        ({
            let ls = lines_incl(content);
            let h = header_from(ls, section, 0);
            let body = ls.subrange(h + 1, opening_from(ls, h + 1));
            h < ls.len() && key_from(body, key, 0) >= body.len()
        }),
    ensures
        is_edited(content, key_set(content, section, key, value), e),
        e.gone.len() == 0,
        contains(e.new, assignment(key, value)),
{
    let ls = lines_incl(content);
    let h = header_from(ls, section, 0);
    let eol = eol_of(content);
    let line = assignment(key, value);
    let none = Seq::<char>::empty();
    lemma_concat_lines(content);
    lemma_header_from(ls, section, 0);
    lemma_opening_from(ls, h + 1);
    let end = opening_from(ls, h + 1);
    let body = ls.subrange(h + 1, end);
    lemma_concat_three(ls, h + 1, end);
    lemma_only_last_is_open(content, h);
    let head = concat(ls.take(h + 1));
    let tail = concat(ls.skip(end));
    let all = concat(body);
    lemma_kept_front(all);
    let kept = without_line_ends(all);
    let blank = all.skip(kept.len() as int);
    let out = key_set(content, section, key, value);
    let gap = if ls[h].last() == '\n' {
        none
    } else {
        eol
    };
    if kept.len() == 0 {
        assert(all =~= blank);
        assert(content =~= head + (blank + tail));
        assert(out == head + gap + (line + eol + blank) + tail);
        assert(out =~= head + (gap + line + eol) + (blank + tail));
        lemma_insertion(head, gap, line, eol, blank + tail)
    } else {
        assert(h + 1 < ls.len()) by {
            if h + 1 >= ls.len() {
                assert(body.len() == 0);
                assert(concat(body).len() == 0);
            }
        }
        assert(content =~= (head + kept) + (blank + tail));
        assert(out == head + none + (kept + eol + line + blank) + tail);
        assert(out =~= (head + kept) + (eol + line + none) + (blank + tail));
        lemma_insertion(head + kept, eol, line, none, blank + tail)
    }
}

/// Setting a key is one edit of the text: the line that set the key goes, if there was
/// one, and the new line comes. Comments, blank lines and every other line stay as they
/// were.
pub proof fn law_set_key_is_one_edit(
    content: Seq<char>,
    section: Seq<char>,
    key: Seq<char>,
    value: Seq<char>,
) -> (e: Edit)
    ensures
        is_edited(content, key_set(content, section, key, value), e),
        e.gone.len() == 0 || (sets_key(e.gone, key) && lines_incl(content).contains(e.gone)),
        contains(e.new, key + " = "@ + value),
{
    let ls = lines_incl(content);
    let h = header_from(ls, section, 0);
    let body = ls.subrange(h + 1, opening_from(ls, h + 1));
    if h >= ls.len() {
        lemma_key_in_new_section(content, section, key, value)
    } else if key_from(body, key, 0) < body.len() {
        lemma_key_on_its_line(content, section, key, value)
    } else {
        lemma_key_behind_the_others(content, section, key, value)
    }
}

/// Only the last line can be without a line feed.
proof fn lemma_only_last_is_open(s: Seq<char>, i: int)
    requires
        0 <= i < lines_incl(s).len(),
    ensures
        lines_incl(s)[i].len() > 0,
        i < lines_incl(s).len() - 1 ==> lines_incl(s)[i].last() == '\n',
{
    crate::text::lemma_lines_incl_shape(s);
}

/// Replacing a section that is there is one edit of the text: its lines go, from its
/// header to the next line that opens a section, and nothing else.
pub proof fn law_replaced_section_is_one_edit(
    content: Seq<char>,
    name: Seq<char>,
    body: Seq<char>,
) -> (r: (Edit, Seq<Seq<char>>))
    requires
        header_from(lines_incl(content), name, 0) < lines_incl(content).len(),
    ensures
        is_edited(content, section_set(content, name, body), r.0),
        r.0.gone == concat(r.1),
        r.1.len() > 0,
        is_header_of(r.1[0], name),
        forall|i: int| 1 <= i < r.1.len() ==> !opens_section(#[trigger] r.1[i]),
{
    let ls = lines_incl(content);
    let h = header_from(ls, name, 0);
    lemma_concat_lines(content);
    lemma_header_from(ls, name, 0);
    lemma_opening_from(ls, h + 1);
    let next = opening_from(ls, h + 1);
    lemma_concat_three(ls, h, next);
    let old = ls.subrange(h, next);
    let out = section_set(content, name, body);
    let front = concat(ls.take(h));
    let rest = concat(ls.skip(next));
    let eol = eol_of(content);
    let new = crate::ini::section_text(body, eol) + (if next >= ls.len() {
        Seq::empty()
    } else {
        eol
    });
    let e = Edit { front, gone: concat(old), new, rest };
    assert(content =~= e.front + e.gone + e.rest);
    assert(out =~= e.front + e.new + e.rest);
    assert forall|i: int| 1 <= i < old.len() implies !opens_section(#[trigger] old[i]) by {
        assert(old[i] == ls[h + i]);
    }
    (e, old)
}

/// A section that was not there comes behind the whole text, but for the line ends that
/// it ended in.
pub proof fn law_new_section_comes_last(content: Seq<char>, name: Seq<char>, body: Seq<char>)
    requires
        header_from(lines_incl(content), name, 0) >= lines_incl(content).len(),
        content.len() > 0,
    ensures
        ({
            let out = section_set(content, name, body);
            let kept = without_line_ends(content);
            &&& out.len() >= kept.len()
            &&& out.take(kept.len() as int) == kept
            &&& content.take(kept.len() as int) == kept
            &&& forall|i: int|
                kept.len() <= i < content.len() ==> #[trigger] content[i] == '\r' || content[i] == '\n'
        }),
{
    lemma_kept_front(content);
    lemma_only_ends_go(content);
    let out = section_set(content, name, body);
    let kept = without_line_ends(content);
    assert(out.take(kept.len() as int) =~= kept);
}

proof fn lemma_only_ends_go(s: Seq<char>)
    ensures
        forall|i: int|
            without_line_ends(s).len() <= i < s.len() ==> #[trigger] s[i] == '\r' || s[i] == '\n',
    decreases s.len(),
{
    if s.len() > 0 && (s.last() == '\r' || s.last() == '\n') {
        lemma_only_ends_go(s.drop_last());
        assert forall|i: int| without_line_ends(s).len() <= i < s.len() implies #[trigger] s[i] == '\r'
            || s[i] == '\n' by {
            if i < s.len() - 1 {
                assert(s[i] == s.drop_last()[i]);
            }
        }
    }
}

/// Renaming a section is an edit of its header line alone, which keeps the blanks that
/// were around the old name's brackets.
pub proof fn law_rename_edits_the_header(content: Seq<char>, old_name: Seq<char>, new: Seq<char>) -> (e:
    Edit)
    requires
        section_renamed(content, old_name, new) is Ok,
    ensures
        is_edited(content, section_renamed(content, old_name, new)->Ok_0, e),
        is_header_of(e.gone, old_name),
        contains(e.new, "["@ + new + "]"@),
{
    let ls = lines_incl(content);
    let h = header_from(ls, old_name, 0);
    lemma_concat_lines(content);
    lemma_header_from(ls, old_name, 0);
    lemma_concat_three(ls, h, h + 1);
    assert(ls.subrange(h, h + 1) =~= seq![ls[h]]);
    lemma_concat_one(ls[h]);
    let fresh = crate::ini::renamed_line(ls[h], new);
    let core = "["@ + new + "]"@;
    let start = ls[h].len() - trim_start(ls[h]).len();
    crate::text::lemma_trim_start_shape(ls[h]);
    assert(fresh.subrange(start, start + core.len()) =~= core);
    assert(occurs_at(fresh, core, start));
    let e = Edit { front: concat(ls.take(h)), gone: ls[h], new: fresh, rest: concat(ls.skip(h + 1)) };
    assert(content =~= e.front + e.gone + e.rest);
    e
}

/// Deleting a section takes its lines out, and where that leaves no heap of blank lines
/// it changes nothing else.
pub proof fn law_delete_takes_the_lines(content: Seq<char>, name: Seq<char>) -> (r: (
    Edit,
    Seq<Seq<char>>,
))
    requires
        section_deleted(content, name) is Some,
    ensures
        content == r.0.front + r.0.gone + r.0.rest,
        r.0.gone == concat(r.1),
        r.1.len() > 0,
        is_header_of(r.1[0], name),
        forall|i: int| 1 <= i < r.1.len() ==> !opens_section(#[trigger] r.1[i]),
        !contains(r.0.front + r.0.rest, "\r\n\r\n\r\n"@) && !contains(
            r.0.front + r.0.rest,
            "\n\n\n"@,
        ) ==> section_deleted(content, name) == Some(r.0.front + r.0.rest),
{
    let ls = lines_incl(content);
    let h = header_from(ls, name, 0);
    lemma_concat_lines(content);
    lemma_header_from(ls, name, 0);
    lemma_opening_from(ls, h + 1);
    let next = opening_from(ls, h + 1);
    lemma_concat_three(ls, h, next);
    let old = ls.subrange(h, next);
    let front = concat(ls.take(h));
    let rest = concat(ls.skip(next));
    let s = front + rest;
    lemma_find_contains(s, "\r\n\r\n\r\n"@);
    lemma_find_contains(s, "\n\n\n"@);
    assert forall|i: int| 1 <= i < old.len() implies !opens_section(#[trigger] old[i]) by {
        assert(old[i] == ls[h + i]);
    }
    (Edit { front, gone: concat(old), new: Seq::empty(), rest }, old)
}

// ── The reader ───────────────────────────────────────────────────────────

/// A line that begins with a comment sign, blanks aside, says nothing to the reader, and
/// neither does one that is blank or has no equals sign.
pub proof fn law_comments_say_nothing(acc: Seq<SectionView>, line: Seq<char>)
    requires
        trim(line).len() > 0 ==> trim(line)[0] == ';' || trim(line)[0] == '#' || (trim(line)[0] != '['
            && !trim(line).contains('=')),
    ensures
        step(acc, line) == acc,
{
    let t = trim(line);
    if t.len() > 0 && t[0] != ';' && t[0] != '#' {
        crate::text::lemma_find_char(t, '=');
        let at = crate::text::find_char(t, '=');
        if at < t.len() {
            assert(t.contains(t[at]));
        }
    }
}

/// A value ends where a comment begins, and the blanks before it go too.
pub proof fn law_comment_ends_a_value(v: Seq<char>, mark: char, comment: Seq<char>)
    requires
        mark == ';' || mark == '#',
        !v.contains(';') && !v.contains('#'),
    ensures
        without_comment(v + seq![mark] + comment) == trim_end(v),
{
    let s = v + seq![mark] + comment;
    assert(s.take(v.len() as int) =~= v);
    lemma_first_mark(v, s);
}

proof fn lemma_first_mark(v: Seq<char>, s: Seq<char>)
    requires
        v.len() < s.len(),
        s.take(v.len() as int) == v,
        is_marker(s[v.len() as int]),
        !v.contains(';') && !v.contains('#'),
    ensures
        first_marker(s) == v.len(),
    decreases v.len(),
{
    if v.len() > 0 {
        assert(s[0] == s.take(v.len() as int)[0]);
        assert(v.contains(v[0]));
        let w = v.skip(1);
        let t = s.skip(1);
        assert(t.take(w.len() as int) =~= w);
        assert forall|i: int| 0 <= i < w.len() implies w[i] != ';' && w[i] != '#' by {
            assert(w[i] == v[i + 1]);
            assert(v.contains(v[i + 1]));
        }
        lemma_first_mark(w, t);
    }
}

/// A line in square brackets opens the section of that name.
pub proof fn law_brackets_open_a_section(acc: Seq<SectionView>, name: Seq<char>)
    ensures
        step(acc, seq!['['] + name + seq![']']) == acc.push(
            SectionView { id: trim(name), keys: Map::empty() },
        ),
{
    let line = seq!['['] + name + seq![']'];
    assert(line[0] == '[' && line.last() == ']');
    assert(trim_start(line) == line);
    assert(trim_end(line) == line);
    assert(line.subrange(1, line.len() - 1) =~= name);
}

} // verus!
