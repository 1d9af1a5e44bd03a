//! What is read of the devices that a probe lists, and what the dropdown offers.
use vstd::prelude::*;
use vstd::string::*;
use crate::devices::{
    description, device_block, device_line, device_options, device_rows, digit_run, has_space,
    leading_number, lists_id, rfind_char, vram_text, Device,
};
use crate::rounding::one_decimal;
use crate::text::{
    dec, is_digit, is_space, lemma_dec, lemma_find_char_is, lemma_split_join, lower_all, split, trim, trim_end,
    trim_start, join,
};

verus! {

proof fn lemma_run_of(d: Seq<char>, rest: Seq<char>)
    requires
        forall|i: int| 0 <= i < d.len() ==> is_digit(#[trigger] d[i]),
        rest.len() > 0 ==> !is_digit(rest[0]),
    ensures
        digit_run(d + rest) == d.len(),
    decreases d.len(),
{
    let s = d + rest;
    if d.len() > 0 {
        assert(s[0] == d[0]);
        let t = d.skip(1);
        assert forall|i: int| 0 <= i < t.len() implies is_digit(#[trigger] t[i]) by {
            assert(t[i] == d[i + 1]);
        }
        lemma_run_of(t, rest);
        assert(s.skip(1) =~= t + rest);
    } else {
        assert(s =~= rest);
    }
}

/// The number at the front of a text is the one that its numeral denotes.
pub proof fn law_leading_number(n: nat, rest: Seq<char>)
    requires
        n <= u64::MAX,
        rest.len() > 0 ==> !is_digit(rest[0]),
    ensures
        leading_number(dec(n) + rest) == Some(n as int),
{
    lemma_dec(n);
    let d = dec(n);
    lemma_run_of(d, rest);
    assert((d + rest).take(d.len() as int) =~= d);
    assert(is_digit(d[0]));
}

proof fn lemma_rfind(s: Seq<char>, c: char, at: int)
    requires
        0 <= at < s.len(),
        s[at] == c,
        forall|k: int| at < k < s.len() ==> #[trigger] s[k] != c,
    ensures
        rfind_char(s, c) == at,
    decreases s.len(),
{
    if at < s.len() - 1 {
        let init = s.drop_last();
        assert(s.last() == s[s.len() - 1]);
        assert forall|k: int| at < k < init.len() implies #[trigger] init[k] != c by {
            assert(init[k] == s[k]);
        }
        lemma_rfind(init, c, at);
    }
}

/// A description reads as the name, the total and the free memory that it was made of.
pub proof fn law_description_reads_back(name: Seq<char>, total: nat, free: nat)
    requires
        trim(name) == name,
        name.len() > 0,
        total <= u64::MAX,
        free <= u64::MAX,
    ensures
        description(name + " ("@ + dec(total) + " MiB, "@ + dec(free) + " MiB free)"@) == (
            name,
            total as int,
            free as int,
        ),
{
    reveal_strlit(" (");
    reveal_strlit(" MiB, ");
    reveal_strlit(" MiB free)");
    lemma_dec(total);
    lemma_dec(free);
    let a = dec(total);
    let b = dec(free);
    let s = name + " ("@ + a + " MiB, "@ + b + " MiB free)"@;
    let at: int = name.len() as int + 1;
    let n = s.len() as int;
    assert(s[at as int] == '(');
    let first = a + seq![' ', 'M', 'i', 'B'];
    let second = seq![' '] + b + seq![' ', 'M', 'i', 'B', ' ', 'f', 'r', 'e', 'e'];
    let inner = first + seq![','] + second;
    assert(s =~= name + seq![' ', '('] + inner + seq![')']);
    assert(s.subrange(at + 1, n - 1) =~= inner);
    assert forall|k: int| 0 <= k < first.len() implies first[k] != '(' && first[k] != ',' by {
        if k < a.len() {
            assert(is_digit(a[k]));
        }
    }
    assert forall|k: int| 0 <= k < second.len() implies second[k] != '(' && second[k] != ',' by {
        if 1 <= k < 1 + b.len() {
            assert(second[k] == b[k - 1]);
            assert(is_digit(b[k - 1]));
        }
    }
    assert forall|k: int| at < k < s.len() implies #[trigger] s[k] != '(' by {
        if k < n - 1 {
            assert(s[k] == inner[k - at - 1]);
            let i = k - at - 1;
            if i < first.len() {
                assert(inner[i] == first[i]);
            } else if i > first.len() {
                assert(inner[i] == second[i - first.len() - 1]);
            }
        }
    }
    lemma_rfind(s, '(', at as int);
    assert(s.last() == ')');
    let parts = seq![first, second];
    assert(parts.drop_last() =~= seq![first]);
    assert(join(parts.drop_last(), seq![',']) == first);
    assert(join(parts, seq![',']) =~= inner);
    assert forall|i: int| 0 <= i < parts.len() implies !(#[trigger] parts[i]).contains(',') by {}
    lemma_split_join(parts, ',');
    assert(split(inner, ',') == parts);
    assert(is_digit(a[0]) && is_digit(b[0]));
    assert(first[0] == a[0] && first.last() == 'B');
    assert(trim_start(first) == first);
    assert(trim_end(first) == first);
    let tail = second.skip(1);
    assert(is_space(' '));
    assert(tail[0] == b[0] && tail.last() == 'e');
    assert(trim_start(tail) == tail);
    assert(trim_start(second) == tail);
    assert(trim_end(tail) == tail);
    assert(tail =~= b + seq![' ', 'M', 'i', 'B', ' ', 'f', 'r', 'e', 'e']);
    law_leading_number(total, seq![' ', 'M', 'i', 'B']);
    law_leading_number(free, seq![' ', 'M', 'i', 'B', ' ', 'f', 'r', 'e', 'e']);
    let head = name + seq![' '];
    assert(s.take(at as int) =~= head);
    lemma_trim_one_space(name);
}

proof fn lemma_trim_one_space(s: Seq<char>)
    requires
        trim(s) == s,
        s.len() > 0,
    ensures
        trim(s + seq![' ']) == s,
{
    let t = s + seq![' '];
    assert(is_space(' '));
    crate::text::lemma_trim_start_shape(s);
    crate::text::lemma_trim_end_shape(trim_start(s));
    assert(trim_start(s).len() >= s.len());
    assert(trim_start(s) == s);
    assert(!is_space(s[0]));
    assert(t[0] == s[0]);
    assert(trim_start(t) == t);
    assert(t.drop_last() =~= s);
    assert(trim_end(t) == trim_end(s));
}

/// An indented line `id: description` is a device with that id, labelled by both.
pub proof fn law_device_line_reads_back(id: Seq<char>, desc: Seq<char>)
    requires
        id.len() > 0,
        !has_space(id),
        !id.contains(':'),
        desc.len() > 0,
        trim(desc) == desc,
    ensures
        device_line("  "@ + id + ": "@ + desc) matches Some(d) && d.id == id && d.label == id + " — "@
            + desc && d.name == description(desc).0,
{
    reveal_strlit("  ");
    reveal_strlit(": ");
    let line = "  "@ + id + ": "@ + desc;
    let t = id + seq![':', ' '] + desc;
    assert(line =~= seq![' ', ' '] + t);
    assert(is_space(' '));
    assert(!is_space(id[0])) by {
        assert(!has_space(id));
    }
    crate::text::lemma_trim_start_shape(desc);
    crate::text::lemma_trim_end_shape(trim_start(desc));
    assert(trim_start(desc) == desc) by {
        assert(trim_start(desc).len() >= desc.len());
    }
    assert(!is_space(desc.last()));
    assert(!is_space(desc[0]));
    assert(t[0] == id[0] && t.last() == desc.last());
    assert(trim_start(t) == t);
    assert(trim_end(t) == t);
    let one = line.skip(1);
    assert(one[0] == ' ');
    assert(one.skip(1) =~= t);
    assert(trim_start(one) == trim_start(t));
    assert(trim_start(line) == trim_start(one));
    assert(trim(line) == t);
    assert forall|k: int| 0 <= k < id.len() implies t[k] != ':' by {
        assert(t[k] == id[k]);
        assert(id.contains(id[k]));
    }
    lemma_find_char_is(t, ':', id.len() as int);
    assert(t.take(id.len() as int) =~= id);
    assert(!is_space(id.last())) by {
        assert(id.last() == id[id.len() - 1]);
    }
    assert(trim_start(id) == id);
    assert(trim_end(id) == id);
    let rest = t.skip(id.len() as int + 1);
    assert(rest =~= seq![' '] + desc);
    assert(rest.skip(1) =~= desc);
    assert(trim_start(rest) == trim_start(desc));
}

/// Every device of a block is listed, under an id that no other has, and what is listed
/// stands on a line of the block.
pub proof fn law_block_is_complete(ls: Seq<Seq<char>>)
    ensures
        forall|k: int|
            0 <= k < ls.len() ==> (device_line(#[trigger] ls[k]) matches Some(d) ==> lists_id(
                device_block(ls),
                d.id,
            )),
        forall|i: int|
            0 <= i < device_block(ls).len() ==> stands_in(ls, #[trigger] device_block(ls)[i]),
    decreases ls.len(),
{
    if ls.len() > 0 {
        let init = ls.drop_last();
        law_block_is_complete(init);
        let before = device_block(init);
        let now = device_block(ls);
        assert forall|k: int| 0 <= k < ls.len() implies (device_line(#[trigger] ls[k]) matches Some(d)
            ==> lists_id(now, d.id)) by {
            if let Some(d) = device_line(ls[k]) {
                if k < init.len() {
                    assert(init[k] == ls[k]);
                    assert(lists_id(before, d.id));
                    let i = choose|i: int|
                        0 <= i < before.len() && lower_all((#[trigger] before[i]).id) == lower_all(d.id);
                    assert(now[i] == before[i]);
                } else if !lists_id(before, d.id) {
                    assert(now[before.len() as int] == d);
                }
            }
        }
        assert forall|i: int| 0 <= i < now.len() implies stands_in(ls, #[trigger] now[i]) by {
            if i < before.len() {
                assert(now[i] == before[i]);
                assert(stands_in(init, before[i]));
                let k = choose|k: int|
                    0 <= k < init.len() && device_line(#[trigger] init[k]) == Some(before[i]);
                assert(ls[k] == init[k]);
            } else {
                assert(ls[ls.len() - 1] == ls.last());
            }
        }
    }
}

/// Whether a line describes a device.
pub open spec fn stands_in(ls: Seq<Seq<char>>, d: Device) -> bool {
    exists|k: int| 0 <= k < ls.len() && device_line(#[trigger] ls[k]) == Some(d)
}

/// The row that is selected holds the current device, in any case of the letters; no
/// device is the first row. Every device has a row.
pub proof fn law_current_device_is_selected(ds: Seq<Device>, current: Seq<char>, empty: Seq<char>)
    ensures
        ({
            let (labels, values, at) = device_options(ds, current, empty);
            &&& labels.len() == values.len()
            &&& 0 <= at < values.len()
            &&& lower_all(values[at]) == lower_all(trim(current))
            &&& values[0].len() == 0 && labels[0] == empty
            &&& forall|k: int|
                0 <= k < ds.len() ==> values.contains((#[trigger] ds[k]).id) && labels.contains(ds[k].label)
        }),
{
    let (labels, values) = device_rows(ds, empty);
    let cur = trim(current);
    crate::gpu_split::lemma_find_ignore_case_shape(values, cur);
    let (l2, v2, at) = device_options(ds, current, empty);
    assert forall|k: int| 0 <= k < ds.len() implies v2.contains((#[trigger] ds[k]).id) && l2.contains(
        ds[k].label,
    ) by {
        assert(values[k + 1] == ds[k].id && labels[k + 1] == ds[k].label);
        if v2.len() > values.len() {
            assert(v2[k + 2] == ds[k].id && l2[k + 2] == ds[k].label);
        } else {
            assert(v2[k + 1] == ds[k].id && l2[k + 1] == ds[k].label);
        }
    }
    if cur.len() == 0 {
        assert(cur =~= values[0]);
    }
}

/// A line that is not indented describes no device, and neither does one without a colon.
pub proof fn law_no_device_lines(line: Seq<char>)
    requires
        line.len() == 0 || (line[0] != ' ' && line[0] != '\t') || !trim(line).contains(':'),
    ensures
        device_line(line) is None,
{
    let t = trim(line);
    crate::text::lemma_find_char(t, ':');
    let at = crate::text::find_char(t, ':');
    if at < t.len() {
        assert(t.contains(t[at]));
    }
}

/// The memory of a device is told in gigabytes of 1024 MiB, and not at all where it is
/// not known.
pub proof fn law_memory_column(d: Device)
    ensures
        d.total_mib == 0 ==> vram_text(d).len() == 0,
        d.total_mib >= 1 ==> vram_text(d) == one_decimal(d.total_mib as nat, 1024) + " GB ("@
            + one_decimal(d.free_mib as nat, 1024) + " free)"@,
{
}

} // verus!
