//! The compute devices that `llama-server --list-devices` reports.
//!
//! [`parse`] reads the block that the command prints; [`build_options`] turns the
//! list into the rows of a dropdown.
use vstd::prelude::*;
use vstd::slice::slice_subrange;
use vstd::string::*;
use crate::rounding::{one_decimal, push_one_decimal};
use crate::text::{
    digit, find_char, find_ignore_case, from_chars, index_ignore_case, is_digit, is_space, lines,
    lines_of, lower_all, parse_nat, pieces, position, push_chars, read_nat, space, split, split_on,
    str_eq_ignore_case, strs, to_chars, trim, trimmed,
};

verus! {

/// One device of the list.
#[derive(Debug, Clone, PartialEq, Eq)]
pub struct DeviceOption {
    /// The token that goes after `--device` (e.g. `CUDA0`).
    pub id: String,
    /// The description for a dropdown: id, dash, everything the line said.
    pub label: String,
    /// The bare product name, without the memory figures.
    pub name: String,
    /// Total device memory in MiB; 0 when it was not reported.
    pub total_mib: u64,
    /// Free device memory in MiB at probe time; 0 when it was not reported.
    pub free_mib: u64,
}

/// A device as text and numbers.
pub struct Device {
    pub id: Seq<char>,
    pub label: Seq<char>,
    pub name: Seq<char>,
    pub total_mib: u64,
    pub free_mib: u64,
}

impl View for DeviceOption {
    type V = Device;

    open spec fn view(&self) -> Device {
        Device {
            id: self.id@,
            label: self.label@,
            name: self.name@,
            total_mib: self.total_mib,
            free_mib: self.free_mib,
        }
    }
}

/// The devices of a list, as text and numbers.
pub open spec fn devs(v: Seq<DeviceOption>) -> Seq<Device> {
    v.map_values(|d: DeviceOption| d@)
}

/// Whether an id names the CPU, which `--device` does not take.
pub open spec fn names_cpu(id: Seq<char>) -> bool {
    lower_all(id) == lower_all("CPU"@)
}

/// The memory column of a device: gigabytes in total and free, or nothing where
/// the total was not reported.
pub open spec fn vram_text(d: Device) -> Seq<char> {
    if d.total_mib == 0 {
        Seq::empty()
    } else {
        one_decimal(d.total_mib as nat, 1024) + " GB ("@ + one_decimal(d.free_mib as nat, 1024)
            + " free)"@
    }
}

impl DeviceOption {
    /// True for the CPU, in any case of the letters.
    pub fn is_cpu(&self) -> (r: bool)
        ensures
            r == names_cpu(self@.id),
    {
        str_eq_ignore_case(self.id.as_str(), "CPU")
    }

    /// The memory column: `32.6 GB (32.4 free)`, or empty when unreported.
    pub fn vram_summary(&self) -> (r: String)
        ensures
            r@ == vram_text(self@),
    {
        let mut out: String = String::new();
        if self.total_mib == 0 {
            return out;
        }
        push_one_decimal(&mut out, self.total_mib, 1024);
        out.append(" GB (");
        push_one_decimal(&mut out, self.free_mib, 1024);
        out.append(" free)");
        assert(out@ =~= vram_text(self@));
        out
    }
}

// ── Reading the probe's output ───────────────────────────────────────────

/// The position of the last `c`, or -1.
pub open spec fn rfind_char(s: Seq<char>, c: char) -> int
    decreases s.len(),
{
    if s.len() == 0 {
        -1
    } else if s.last() == c {
        s.len() - 1
    } else {
        rfind_char(s.drop_last(), c)
    }
}

/// How many digits a text starts with.
pub open spec fn digit_run(s: Seq<char>) -> nat
    decreases s.len(),
{
    if s.len() > 0 && is_digit(s[0]) {
        1 + digit_run(s.skip(1))
    } else {
        0
    }
}

/// The number that the digits at the front of a text denote.
pub open spec fn leading_number(s: Seq<char>) -> Option<int> {
    parse_nat(s.take(digit_run(s) as int), u64::MAX as int)
}

/// Name, total and free memory of a description
/// `name (12281 MiB, 10844 MiB free)`. Without such a bracket at its end, or with
/// one that does not start with a number, the whole text is the name.
pub open spec fn description(desc: Seq<char>) -> (Seq<char>, int, int) {
    let at = rfind_char(desc, '(');
    if 0 <= at < desc.len() && desc.last() == ')' {
        let parts = split(desc.subrange(at + 1, desc.len() - 1), ',');
        match leading_number(trim(parts[0])) {
            Some(total) => (
                trim(desc.take(at)),
                total,
                if parts.len() > 1 {
                    match leading_number(trim(parts[1])) {
                        Some(free) => free,
                        None => 0,
                    }
                } else {
                    0
                },
            ),
            None => (desc, 0, 0),
        }
    } else {
        (desc, 0, 0)
    }
}

/// Whether a text holds white space.
pub open spec fn has_space(s: Seq<char>) -> bool {
    exists|i: int| 0 <= i < s.len() && is_space(#[trigger] s[i])
}

/// The device that a line of the block describes: an indented line
/// `id: description`, whose id is one word.
pub open spec fn device_line(line: Seq<char>) -> Option<Device> {
    let t = trim(line);
    let at = find_char(t, ':');
    let id = trim(t.take(at));
    let desc = trim(t.skip(at + 1));
    if line.len() > 0 && (line[0] == ' ' || line[0] == '\t') && at < t.len() && id.len() > 0
        && !has_space(id) {
        Some(
            Device {
                id,
                label: if desc.len() == 0 {
                    id
                } else {
                    id + " — "@ + desc
                },
                name: description(desc).0,
                total_mib: description(desc).1 as u64,
                free_mib: description(desc).2 as u64,
            },
        )
    } else {
        None
    }
}

/// Whether a list names a device, in any case of the letters.
pub open spec fn lists_id(ds: Seq<Device>, id: Seq<char>) -> bool {
    exists|i: int| 0 <= i < ds.len() && lower_all((#[trigger] ds[i]).id) == lower_all(id)
}

/// The devices of a block, in its order, each id once: the first line wins.
pub open spec fn device_block(ls: Seq<Seq<char>>) -> Seq<Device>
    decreases ls.len(),
{
    if ls.len() == 0 {
        Seq::empty()
    } else {
        let before = device_block(ls.drop_last());
        match device_line(ls.last()) {
            Some(d) => if lists_id(before, d.id) {
                before
            } else {
                before.push(d)
            },
            None => before,
        }
    }
}

/// No id stands twice in what a block gives.
pub proof fn law_ids_are_distinct(ls: Seq<Seq<char>>)
    ensures
        forall|i: int, j: int|
            #![trigger device_block(ls)[i], device_block(ls)[j]]
            0 <= i < j < device_block(ls).len() ==> lower_all(device_block(ls)[i].id)
                != lower_all(device_block(ls)[j].id),
    decreases ls.len(),
{
    if ls.len() > 0 {
        law_ids_are_distinct(ls.drop_last());
        let before = device_block(ls.drop_last());
        let now = device_block(ls);
        assert forall|i: int, j: int|
            #![trigger now[i], now[j]]
            0 <= i < j < now.len() implies lower_all(now[i].id) != lower_all(now[j].id) by {
            assert(now[i] == before[i]);
            if j < before.len() {
                assert(now[j] == before[j]);
            }
        }
    }
}

proof fn lemma_digit_run(s: Seq<char>)
    ensures
        digit_run(s) <= s.len(),
        forall|k: int| 0 <= k < digit_run(s) ==> is_digit(s[k]),
        digit_run(s) < s.len() ==> !is_digit(s[digit_run(s) as int]),
    decreases s.len(),
{
    if s.len() > 0 && is_digit(s[0]) {
        lemma_digit_run(s.skip(1));
        assert forall|k: int| 0 <= k < digit_run(s) implies is_digit(s[k]) by {
            if k > 0 {
                assert(s[k] == s.skip(1)[k - 1]);
            }
        }
    }
}

fn leading_u64(c: &[char]) -> (r: Option<u64>)
    ensures
        match r {
            Some(v) => leading_number(c@) == Some(v as int),
            None => leading_number(c@) is None,
        },
{
    let mut i: usize = 0;
    while i < c.len() && digit(c[i])
        invariant
            i <= c.len(),
            forall|k: int| 0 <= k < i ==> is_digit(c@[k]),
        decreases c.len() - i,
    {
        i += 1;
    }
    proof {
        lemma_digit_run(c@);
        let d = digit_run(c@) as int;
        if d < i {
            assert(is_digit(c@[d]));
        } else if i < d {
            assert(is_digit(c@[i as int]));
        }
        assert(c@.subrange(0, i as int) =~= c@.take(i as int));
    }
    read_nat(slice_subrange(c, 0, i), u64::MAX)
}

fn rposition(c: &[char], x: char) -> (r: Option<usize>)
    ensures
        match r {
            Some(i) => rfind_char(c@, x) == i && i < c@.len(),
            None => rfind_char(c@, x) == -1,
        },
{
    let mut i: usize = c.len();
    assert(c@.take(c@.len() as int) =~= c@);
    while i > 0
        invariant
            i <= c.len(),
            rfind_char(c@.take(i as int), x) == rfind_char(c@, x),
        decreases i,
    {
        if c[i - 1] == x {
            return Some(i - 1);
        }
        assert(c@.take(i as int).drop_last() =~= c@.take(i as int - 1));
        i -= 1;
    }
    None
}

fn split_desc(desc: &[char]) -> (r: (String, u64, u64))
    ensures
        (r.0@, r.1 as int, r.2 as int) == description(desc@),
{
    let at: usize = match rposition(desc, '(') {
        Some(i) => i,
        None => return (from_chars(desc), 0, 0),
    };
    if desc[desc.len() - 1] != ')' {
        return (from_chars(desc), 0, 0);
    }
    assert(desc@[at as int] == '(') by {
        lemma_rfind_char(desc@, '(');
    }
    let inner = slice_subrange(desc, at + 1, desc.len() - 1);
    let head = slice_subrange(desc, 0, at);
    assert(head@ =~= desc@.take(at as int));
    let parts = split_on(inner, ',');
    assert(pieces(parts@)[0] == parts@[0]@);
    match leading_u64(trimmed(parts[0])) {
        Some(total) => {
            let mut free: u64 = 0;
            if parts.len() > 1 {
                assert(pieces(parts@)[1] == parts@[1]@);
                if let Some(f) = leading_u64(trimmed(parts[1])) {
                    free = f;
                }
            }
            (from_chars(trimmed(head)), total, free)
        },
        None => (from_chars(desc), 0, 0),
    }
}

proof fn lemma_rfind_char(s: Seq<char>, c: char)
    ensures
        -1 <= rfind_char(s, c) < s.len(),
        rfind_char(s, c) >= 0 ==> s[rfind_char(s, c)] == c,
    decreases s.len(),
{
    if s.len() > 0 && s.last() != c {
        lemma_rfind_char(s.drop_last(), c);
    }
}

fn holds_space(c: &[char]) -> (r: bool)
    ensures
        r == has_space(c@),
{
    let mut i: usize = 0;
    while i < c.len()
        invariant
            i <= c.len(),
            forall|k: int| 0 <= k < i ==> !is_space(#[trigger] c@[k]),
        decreases c.len() - i,
    {
        if space(c[i]) {
            assert(is_space(c@[i as int]));
            return true;
        }
        i += 1;
    }
    false
}

fn read_line(line: &[char]) -> (r: Option<DeviceOption>)
    ensures
        match r {
            Some(d) => device_line(line@) == Some(d@),
            None => device_line(line@) is None,
        },
{
    if line.len() == 0 || (line[0] != ' ' && line[0] != '\t') {
        return None;
    }
    let t = trimmed(line);
    let at: usize = position(t, ':');
    if at == t.len() {
        return None;
    }
    let head = slice_subrange(t, 0, at);
    let tail = slice_subrange(t, at + 1, t.len());
    assert(head@ =~= t@.take(at as int));
    assert(tail@ =~= t@.skip(at + 1));
    let id = trimmed(head);
    if id.len() == 0 || holds_space(id) {
        return None;
    }
    let desc = trimmed(tail);
    let mut label: String = from_chars(id);
    if desc.len() > 0 {
        label.append(" — ");
        push_chars(&mut label, desc);
    }
    let (name, total_mib, free_mib) = split_desc(desc);
    Some(DeviceOption { id: from_chars(id), label, name, total_mib, free_mib })
}

fn has_id(v: &Vec<DeviceOption>, id: &str) -> (r: bool)
    ensures
        r == lists_id(devs(v@), id@),
{
    let mut i: usize = 0;
    while i < v.len()
        invariant
            i <= v.len(),
            forall|k: int| 0 <= k < i ==> lower_all((#[trigger] devs(v@)[k]).id) != lower_all(id@),
        decreases v.len() - i,
    {
        assert(devs(v@)[i as int] == v@[i as int]@);
        if str_eq_ignore_case(v[i].id.as_str(), id) {
            return true;
        }
        i += 1;
    }
    false
}

/// The devices of a `--list-devices` block. Each is an indented line
/// `  CUDA0: NVIDIA GeForce RTX 4070 SUPER (12281 MiB, 10844 MiB free)`; the
/// header and any other line are passed over.
pub fn parse(s: &str) -> (r: Vec<DeviceOption>)
    ensures
        devs(r@) == device_block(lines(s@)),
{
    let c = to_chars(s);
    let ls = lines_of(c.as_slice());
    let mut out: Vec<DeviceOption> = Vec::new();
    let mut i: usize = 0;
    assert(devs(out@) =~= device_block(pieces(ls@).take(0)));
    while i < ls.len()
        invariant
            i <= ls.len(),
            pieces(ls@) == lines(s@),
            devs(out@) == device_block(pieces(ls@).take(i as int)),
        decreases ls.len() - i,
    {
        let ghost t = pieces(ls@).take(i + 1);
        let ghost before = out@;
        assert(t.drop_last() =~= pieces(ls@).take(i as int));
        assert(t.last() == ls@[i as int]@);
        if let Some(d) = read_line(ls[i]) {
            if !has_id(&out, d.id.as_str()) {
                out.push(d);
                assert(devs(out@) =~= devs(before).push(d@));
            }
        }
        i += 1;
    }
    assert(pieces(ls@).take(ls@.len() as int) =~= pieces(ls@));
    out
}

// ── The dropdown ─────────────────────────────────────────────────────────

/// Labels and values of the rows for the devices alone, under a first row with
/// the empty value.
pub open spec fn device_rows(
    ds: Seq<Device>,
    empty_label: Seq<char>,
) -> (Seq<Seq<char>>, Seq<Seq<char>>) {
    (
        seq![empty_label] + ds.map_values(|d: Device| d.label),
        seq![Seq::<char>::empty()] + ds.map_values(|d: Device| d.id),
    )
}

/// The rows of the dropdown and the selected one. A current value that no device
/// has is kept as a row of its own, the second.
pub open spec fn device_options(
    ds: Seq<Device>,
    current: Seq<char>,
    empty_label: Seq<char>,
) -> (Seq<Seq<char>>, Seq<Seq<char>>, int) {
    let (labels, values) = device_rows(ds, empty_label);
    let cur = trim(current);
    if cur.len() == 0 {
        (labels, values, 0)
    } else if find_ignore_case(values, cur) >= 0 {
        (labels, values, find_ignore_case(values, cur))
    } else {
        (labels.insert(1, "(custom) "@ + cur), values.insert(1, cur), 1)
    }
}

/// The rows of a device dropdown: labels, values and the selected row.
pub fn build_options(devices: &[DeviceOption], current: &str, empty_label: &str) -> (r: (
    Vec<String>,
    Vec<String>,
    i32,
))
    requires
        devices@.len() < i32::MAX,
    ensures
        (strs(r.0@), strs(r.1@), r.2 as int) == device_options(
            devs(devices@),
            current@,
            empty_label@,
        ),
{
    let mut labels: Vec<String> = Vec::new();
    let mut values: Vec<String> = Vec::new();
    labels.push(empty_label.to_owned());
    values.push(String::new());
    let ghost want = device_rows(devs(devices@), empty_label@);
    let mut i: usize = 0;
    while i < devices.len()
        invariant
            i <= devices.len(),
            want == device_rows(devs(devices@), empty_label@),
            strs(labels@) =~= want.0.take(i + 1),
            strs(values@) =~= want.1.take(i + 1),
        decreases devices.len() - i,
    {
        let ghost (l0, v0) = (labels@, values@);
        labels.push(devices[i].label.clone());
        values.push(devices[i].id.clone());
        proof {
            assert(strs(labels@) =~= strs(l0).push(devices@[i as int].label@));
            assert(strs(values@) =~= strs(v0).push(devices@[i as int].id@));
            assert(devs(devices@)[i as int] == devices@[i as int]@);
            assert(want.0.take(i + 2) =~= want.0.take(i + 1).push(want.0[i + 1]));
            assert(want.1.take(i + 2) =~= want.1.take(i + 1).push(want.1[i + 1]));
        }
        i += 1;
    }
    proof {
        assert(want.0.take(i + 1) =~= want.0);
        assert(want.1.take(i + 1) =~= want.1);
    }
    let c = to_chars(current);
    let cur = trimmed(c.as_slice());
    if cur.len() == 0 {
        return (labels, values, 0);
    }
    if let Some(k) = index_ignore_case(&values, cur) {
        return (labels, values, k as i32);
    }
    let mut label: String = "(custom) ".to_owned();
    push_chars(&mut label, cur);
    labels.insert(1, label);
    values.insert(1, from_chars(cur));
    proof {
        assert(strs(labels@) =~= want.0.insert(1, label@));
        assert(strs(values@) =~= want.1.insert(1, cur@));
    }
    (labels, values, 1)
}

} // verus!
