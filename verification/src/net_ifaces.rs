//! The addresses that the server listens on.
//!
//! The setting is a list with commas between the addresses, each bound on its own.
//! Addresses that overlap must not stand in it together, so the one that covers
//! all interfaces stands alone ([`toggle`]).
use vstd::prelude::*;
use vstd::string::*;
use crate::text::{
    dec, entries, entries_of, find_ignore_case, index_ignore_case, is_entry, join, join_strs,
    lemma_entries, lemma_entries_join, lower_all, push_dec, str_eq, str_eq_ignore_case, str_less,
    strs, text_less, to_chars, to_strings, trim_end, trim_start,
};

verus! {

/// The address that covers all interfaces.
pub const ALL_INTERFACES: &'static str = "0.0.0.0";

/// An address that can be bound.
#[derive(Debug, Clone, PartialEq, Eq)]
pub struct BindOption {
    pub label: String,
    pub value: String,
}

/// A row of the list of addresses.
#[derive(Debug, Clone, PartialEq, Eq)]
pub struct BindRow {
    pub label: String,
    pub value: String,
    pub checked: bool,
    /// Whether it can be checked: not beside the address that covers it.
    pub enabled: bool,
}

/// A row as text.
#[verifier::ext_equal]
pub struct RowText {
    pub label: Seq<char>,
    pub value: Seq<char>,
    pub checked: bool,
    pub enabled: bool,
}

impl View for BindRow {
    type V = RowText;

    open spec fn view(&self) -> RowText {
        RowText {
            label: self.label@,
            value: self.value@,
            checked: self.checked,
            enabled: self.enabled,
        }
    }
}

pub open spec fn row_texts(v: Seq<BindRow>) -> Seq<RowText> {
    v.map_values(|r: BindRow| r@)
}

/// Addresses as labels and values.
pub open spec fn options(v: Seq<BindOption>) -> Seq<(Seq<char>, Seq<char>)> {
    v.map_values(|o: BindOption| (o.label@, o.value@))
}

/// The addresses of the setting: trimmed, none of them empty.
pub fn parse_hosts(value: &str) -> (r: Vec<String>)
    ensures
        strs(r@) == entries(value@, ','),
{
    let c = to_chars(value);
    let v = entries_of(c.as_slice(), ',');
    to_strings(&v)
}

/// The setting for a list of addresses.
pub fn join_hosts(hosts: &Vec<String>) -> (r: String)
    ensures
        r@ == join(strs(hosts@), ","@),
{
    join_strs(hosts, ",")
}

// ── Checking and unchecking ──────────────────────────────────────────────

/// A list without the address that covers all interfaces.
pub open spec fn without_all(v: Seq<Seq<char>>) -> Seq<Seq<char>>
    decreases v.len(),
{
    if v.len() == 0 {
        Seq::empty()
    } else if v.last() == "0.0.0.0"@ {
        without_all(v.drop_last())
    } else {
        without_all(v.drop_last()).push(v.last())
    }
}

/// A list in which the address that covers all interfaces stands beside no other.
pub open spec fn alone(v: Seq<Seq<char>>) -> Seq<Seq<char>> {
    if v.len() > 1 {
        without_all(v)
    } else {
        v
    }
}

/// The list once an address was checked or unchecked.
pub open spec fn toggled_hosts(hosts: Seq<Seq<char>>, value: Seq<char>) -> Seq<Seq<char>> {
    let at = find_ignore_case(hosts, value);
    let v = if at >= 0 {
        alone(hosts.remove(at))
    } else if value == "0.0.0.0"@ {
        seq![value]
    } else {
        without_all(hosts).push(value)
    };
    if v.len() == 0 {
        seq!["localhost"@]
    } else {
        v
    }
}

fn drop_all(hosts: &Vec<String>) -> (r: Vec<String>)
    ensures
        strs(r@) == without_all(strs(hosts@)),
{
    let ghost all = strs(hosts@);
    let mut out: Vec<String> = Vec::new();
    let mut i: usize = 0;
    assert(all.take(0) =~= Seq::<Seq<char>>::empty());
    assert(strs(out@) =~= without_all(all.take(0)));
    while i < hosts.len()
        invariant
            i <= hosts.len(),
            all == strs(hosts@),
            strs(out@) == without_all(all.take(i as int)),
        decreases hosts.len() - i,
    {
        let ghost before = out@;
        proof {
            assert(all.take(i + 1).drop_last() =~= all.take(i as int));
            assert(all.take(i + 1).last() == hosts@[i as int]@);
        }
        if !str_eq(hosts[i].as_str(), "0.0.0.0") {
            out.push(hosts[i].clone());
            assert(strs(out@) =~= strs(before).push(hosts@[i as int]@));
        }
        i += 1;
    }
    assert(all.take(hosts@.len() as int) =~= all);
    out
}

/// Checks or unchecks an address. The one that covers all interfaces replaces the
/// list when it is checked, and goes where another one is there or is checked; with
/// none left it is localhost.
pub fn toggle(current: &str, value: &str) -> (r: String)
    ensures
        r@ == join(toggled_hosts(entries(current@, ','), value@), ","@),
{
    let mut hosts = parse_hosts(current);
    let ghost before = strs(hosts@);
    let c = to_chars(value);
    match index_ignore_case(&hosts, c.as_slice()) {
        Some(i) => {
            let ghost was = hosts@;
            hosts.remove(i);
            assert(strs(hosts@) =~= strs(was).remove(i as int));
            assert(strs(hosts@).len() == hosts@.len());
            if hosts.len() > 1 {
                hosts = drop_all(&hosts);
            }
        },
        None => {
            if str_eq(value, "0.0.0.0") {
                hosts = Vec::new();
                hosts.push(value.to_owned());
                assert(strs(hosts@) =~= seq![value@]);
            } else {
                hosts = drop_all(&hosts);
                let ghost was = hosts@;
                hosts.push(value.to_owned());
                assert(strs(hosts@) =~= strs(was).push(value@));
            }
        },
    }
    assert(strs(hosts@).len() == hosts@.len());
    if hosts.len() == 0 {
        hosts.push("localhost".to_owned());
        assert(strs(hosts@) =~= seq!["localhost"@]);
    }
    join_hosts(&hosts)
}

/// A list in which the address that covers all interfaces stands alone, if at all.
pub open spec fn exclusive(v: Seq<Seq<char>>) -> bool {
    v.contains("0.0.0.0"@) ==> v.len() == 1
}

proof fn lemma_without_all(v: Seq<Seq<char>>)
    ensures
        !without_all(v).contains("0.0.0.0"@),
        forall|i: int|
            0 <= i < without_all(v).len() ==> v.contains(#[trigger] without_all(v)[i]),
    decreases v.len(),
{
    if v.len() > 0 {
        let init = v.drop_last();
        lemma_without_all(init);
        let now = without_all(v);
        assert forall|i: int| 0 <= i < now.len() implies v.contains(#[trigger] now[i]) && now[i]
            != "0.0.0.0"@ by {
            if i < without_all(init).len() {
                assert(now[i] == without_all(init)[i]);
                assert(init.contains(now[i]));
                let k = choose|k: int| 0 <= k < init.len() && init[k] == now[i];
                assert(v[k] == now[i]);
            } else {
                assert(v[v.len() - 1] == now[i]);
            }
        }
    }
}

proof fn lemma_toggled_are_entries(hosts: Seq<Seq<char>>, value: Seq<char>)
    requires
        is_entry(value, ','),
        forall|i: int| 0 <= i < hosts.len() ==> is_entry(#[trigger] hosts[i], ','),
    ensures
        forall|i: int|
            0 <= i < toggled_hosts(hosts, value).len() ==> is_entry(
                #[trigger] toggled_hosts(hosts, value)[i],
                ',',
            ),
{
    let now = toggled_hosts(hosts, value);
    lemma_localhost_is_entry();
    lemma_without_all(hosts);
    assert forall|i: int| 0 <= i < now.len() implies is_entry(#[trigger] now[i], ',') by {
        let at = find_ignore_case(hosts, value);
        if at >= 0 && alone(hosts.remove(at)).len() > 0 {
            lemma_find_bound(hosts, value);
            let rest = hosts.remove(at);
            lemma_without_all(rest);
            assert(rest.contains(now[i]));
            let k = choose|k: int| 0 <= k < rest.len() && rest[k] == now[i];
            assert(is_entry(hosts[if k < at {
                k
            } else {
                k + 1
            }], ','));
        } else if at < 0 && value != "0.0.0.0"@ {
            if i < without_all(hosts).len() {
                assert(now[i] == without_all(hosts)[i]);
                let k = choose|k: int| 0 <= k < hosts.len() && hosts[k] == now[i];
                assert(is_entry(hosts[k], ','));
            }
        }
    }
}

pub proof fn lemma_find_bound(v: Seq<Seq<char>>, x: Seq<char>)
    ensures
        -1 <= find_ignore_case(v, x) < v.len(),
        find_ignore_case(v, x) >= 0 ==> lower_all(v[find_ignore_case(v, x)]) == lower_all(x),
        find_ignore_case(v, x) < 0 ==> forall|k: int|
            0 <= k < v.len() ==> lower_all(#[trigger] v[k]) != lower_all(x),
    decreases v.len(),
{
    if v.len() > 0 {
        lemma_find_bound(v.drop_last(), x);
        assert forall|k: int|
            0 <= k < v.len() && find_ignore_case(v, x) < 0 implies lower_all(#[trigger] v[k])
            != lower_all(x) by {
            if k < v.len() - 1 {
                assert(v[k] == v.drop_last()[k]);
            }
        }
    }
}

proof fn lemma_localhost_is_entry()
    ensures
        is_entry("localhost"@, ','),
        "localhost"@ != "0.0.0.0"@,
{
    reveal_strlit("localhost");
    reveal_strlit("0.0.0.0");
    let s = "localhost"@;
    assert(s.len() == 9);
    assert("0.0.0.0"@.len() == 7);
    assert(s[0] == 'l' && s[8] == 't');
    assert(trim_start(s) == s);
    assert(trim_end(s) == s);
    assert(!s.contains(','));
}

/// After checking or unchecking, the address that covers all interfaces stands
/// beside no other one, whatever the list was before.
pub proof fn law_toggle_keeps_exclusive(current: Seq<char>, value: Seq<char>)
    requires
        is_entry(value, ','),
    ensures
        exclusive(
            entries(join(toggled_hosts(entries(current, ','), value), ","@), ','),
        ),
{
    let hosts = entries(current, ',');
    let now = toggled_hosts(hosts, value);
    lemma_entries(current, ',');
    lemma_toggled_are_entries(hosts, value);
    reveal_strlit(",");
    assert(","@ =~= seq![',']);
    lemma_entries_join(now, ',');
    lemma_localhost_is_entry();
    lemma_without_all(hosts);
    lemma_find_bound(hosts, value);
    let at = find_ignore_case(hosts, value);
    if at >= 0 {
        lemma_without_all(hosts.remove(at));
    } else if value != "0.0.0.0"@ {
        if now.contains("0.0.0.0"@) {
            let k = choose|k: int| 0 <= k < now.len() && now[k] == "0.0.0.0"@;
            if k < without_all(hosts).len() {
                assert(without_all(hosts)[k] == "0.0.0.0"@);
            }
        }
    }
}

/// An address that was not in the list is in it once it is checked.
pub proof fn law_toggle_checks(current: Seq<char>, value: Seq<char>)
    requires
        is_entry(value, ','),
        find_ignore_case(entries(current, ','), value) < 0,
    ensures
        entries(join(toggled_hosts(entries(current, ','), value), ","@), ',').contains(value),
{
    let hosts = entries(current, ',');
    let now = toggled_hosts(hosts, value);
    lemma_entries(current, ',');
    lemma_toggled_are_entries(hosts, value);
    reveal_strlit(",");
    assert(","@ =~= seq![',']);
    lemma_entries_join(now, ',');
    assert(now[now.len() - 1] == value);
}

// ── The rows ─────────────────────────────────────────────────────────────

/// The two addresses that head the list.
pub open spec fn fixed() -> Seq<(Seq<char>, Seq<char>)> {
    seq![
        ("localhost (only this machine)"@, "localhost"@),
        ("0.0.0.0 (all interfaces, LAN-reachable)"@, "0.0.0.0"@),
    ]
}

fn fixed_rows() -> (r: Vec<BindOption>)
    ensures
        options(r@) == fixed(),
{
    let mut out: Vec<BindOption> = Vec::new();
    out.push(
        BindOption { label: "localhost (only this machine)".to_owned(), value: "localhost".to_owned() },
    );
    out.push(
        BindOption {
            label: "0.0.0.0 (all interfaces, LAN-reachable)".to_owned(),
            value: "0.0.0.0".to_owned(),
        },
    );
    assert(options(out@) =~= fixed());
    out
}

/// The addresses that are bound: none in the setting means localhost.
pub open spec fn bound(current: Seq<char>) -> Seq<Seq<char>> {
    let hosts = entries(current, ',');
    if hosts.len() == 0 {
        seq!["localhost"@]
    } else {
        hosts
    }
}

/// Whether an address is among some, in any case of its letters.
pub open spec fn offers(opts: Seq<(Seq<char>, Seq<char>)>, host: Seq<char>) -> bool {
    exists|i: int| 0 <= i < opts.len() && lower_all((#[trigger] opts[i]).1) == lower_all(host)
}

/// The addresses of the setting that nothing offers any more.
pub open spec fn stale(hosts: Seq<Seq<char>>, opts: Seq<(Seq<char>, Seq<char>)>) -> Seq<
    (Seq<char>, Seq<char>),
>
    decreases hosts.len(),
{
    if hosts.len() == 0 {
        Seq::empty()
    } else {
        let before = stale(hosts.drop_last(), opts);
        if offers(opts, hosts.last()) {
            before
        } else {
            before.push((hosts.last() + " (no longer present)"@, hosts.last()))
        }
    }
}

/// Whether an address is checked.
pub open spec fn checks(hosts: Seq<Seq<char>>, value: Seq<char>) -> bool {
    exists|i: int| 0 <= i < hosts.len() && lower_all(#[trigger] hosts[i]) == lower_all(value)
}

/// The rows: the fixed two, what is bound but gone, what is there.
pub open spec fn bind_rows(ifaces: Seq<(Seq<char>, Seq<char>)>, current: Seq<char>) -> Seq<RowText> {
    let hosts = bound(current);
    let all = hosts.contains("0.0.0.0"@);
    (fixed() + stale(hosts, fixed() + ifaces) + ifaces).map_values(
        |o: (Seq<char>, Seq<char>)|
            RowText {
                label: o.0,
                value: o.1,
                checked: checks(hosts, o.1),
                enabled: !all || o.1 == "0.0.0.0"@,
            },
    )
}

fn offered(opts: &Vec<BindOption>, host: &str) -> (r: bool)
    ensures
        r == offers(options(opts@), host@),
{
    let mut i: usize = 0;
    while i < opts.len()
        invariant
            i <= opts.len(),
            forall|k: int|
                0 <= k < i ==> lower_all((#[trigger] options(opts@)[k]).1) != lower_all(host@),
        decreases opts.len() - i,
    {
        assert(options(opts@)[i as int] == (opts@[i as int].label@, opts@[i as int].value@));
        if str_eq_ignore_case(opts[i].value.as_str(), host) {
            return true;
        }
        i += 1;
    }
    assert(options(opts@).len() == opts@.len());
    false
}

fn is_checked(hosts: &Vec<String>, value: &str) -> (r: bool)
    ensures
        r == checks(strs(hosts@), value@),
{
    let mut i: usize = 0;
    while i < hosts.len()
        invariant
            i <= hosts.len(),
            forall|k: int| 0 <= k < i ==> lower_all(#[trigger] strs(hosts@)[k]) != lower_all(value@),
        decreases hosts.len() - i,
    {
        assert(strs(hosts@)[i as int] == hosts@[i as int]@);
        if str_eq_ignore_case(hosts[i].as_str(), value) {
            return true;
        }
        i += 1;
    }
    assert(strs(hosts@).len() == hosts@.len());
    false
}

fn covers_all(hosts: &Vec<String>) -> (r: bool)
    ensures
        r == strs(hosts@).contains("0.0.0.0"@),
{
    let mut i: usize = 0;
    while i < hosts.len()
        invariant
            i <= hosts.len(),
            forall|k: int| 0 <= k < i ==> (#[trigger] strs(hosts@)[k]) != "0.0.0.0"@,
        decreases hosts.len() - i,
    {
        assert(strs(hosts@)[i as int] == hosts@[i as int]@);
        if str_eq(hosts[i].as_str(), "0.0.0.0") {
            return true;
        }
        i += 1;
    }
    assert(strs(hosts@).len() == hosts@.len());
    false
}

fn copy_option(o: &BindOption) -> (r: BindOption)
    ensures
        r.label@ == o.label@,
        r.value@ == o.value@,
{
    BindOption { label: o.label.clone(), value: o.value.clone() }
}

fn add_options(out: &mut Vec<BindOption>, more: &[BindOption])
    ensures
        options(final(out)@) == options(old(out)@) + options(more@),
{
    let ghost start = options(out@);
    let mut i: usize = 0;
    assert(start + options(more@).take(0) =~= start);
    while i < more.len()
        invariant
            i <= more.len(),
            start == options(old(out)@),
            options(out@) == start + options(more@).take(i as int),
        decreases more.len() - i,
    {
        let ghost before = out@;
        out.push(copy_option(&more[i]));
        proof {
            let o = (more@[i as int].label@, more@[i as int].value@);
            assert(options(out@) =~= options(before).push(o));
            assert(options(more@).take(i + 1) =~= options(more@).take(i as int).push(o));
            assert(options(out@) =~= start + options(more@).take(i + 1));
        }
        i += 1;
    }
    assert(options(more@).take(more@.len() as int) =~= options(more@));
}

fn add_stale(out: &mut Vec<BindOption>, hosts: &Vec<String>, opts: &Vec<BindOption>)
    ensures
        options(final(out)@) == options(old(out)@) + stale(strs(hosts@), options(opts@)),
{
    let ghost start = options(out@);
    let ghost hs = strs(hosts@);
    let ghost os = options(opts@);
    let mut i: usize = 0;
    assert(hs.take(0) =~= Seq::<Seq<char>>::empty());
    assert(start + stale(hs.take(0), os) =~= start);
    while i < hosts.len()
        invariant
            i <= hosts.len(),
            start == options(old(out)@),
            hs == strs(hosts@),
            os == options(opts@),
            options(out@) == start + stale(hs.take(i as int), os),
        decreases hosts.len() - i,
    {
        let ghost before = out@;
        proof {
            assert(hs.take(i + 1).drop_last() =~= hs.take(i as int));
            assert(hs.take(i + 1).last() == hosts@[i as int]@);
        }
        if !offered(opts, hosts[i].as_str()) {
            let mut label: String = hosts[i].clone();
            label.append(" (no longer present)");
            let ghost o = (label@, hosts@[i as int]@);
            out.push(BindOption { label, value: hosts[i].clone() });
            assert(options(out@) =~= options(before).push(o));
            assert(options(out@) =~= start + stale(hs.take(i + 1), os));
        }
        i += 1;
    }
    assert(hs.take(hosts@.len() as int) =~= hs);
}

/// The rows of the list of addresses. An address of the setting that is gone keeps
/// a checked row of its own.
pub fn build_rows(ifaces: &[BindOption], current: &str) -> (r: Vec<BindRow>)
    ensures
        row_texts(r@) == bind_rows(options(ifaces@), current@),
{
    let mut hosts = parse_hosts(current);
    assert(strs(hosts@).len() == hosts@.len());
    if hosts.len() == 0 {
        hosts.push("localhost".to_owned());
        assert(strs(hosts@) =~= seq!["localhost"@]);
    }
    let ghost hs = bound(current@);
    let mut known = fixed_rows();
    add_options(&mut known, ifaces);
    let mut opts = fixed_rows();
    add_stale(&mut opts, &hosts, &known);
    add_options(&mut opts, ifaces);
    let ghost all_opts = fixed() + stale(hs, fixed() + options(ifaces@)) + options(ifaces@);
    assert(options(opts@) == all_opts);
    let all: bool = covers_all(&hosts);
    let mut out: Vec<BindRow> = Vec::new();
    let mut i: usize = 0;
    while i < opts.len()
        invariant
            i <= opts.len(),
            hs == strs(hosts@),
            all == hs.contains("0.0.0.0"@),
            out@.len() == i,
            forall|k: int|
                0 <= k < i ==> (#[trigger] out@[k])@ == (RowText {
                    label: opts@[k].label@,
                    value: opts@[k].value@,
                    checked: checks(hs, opts@[k].value@),
                    enabled: !all || opts@[k].value@ == "0.0.0.0"@,
                }),
        decreases opts.len() - i,
    {
        let o = &opts[i];
        let checked: bool = is_checked(&hosts, o.value.as_str());
        let enabled: bool = !all || str_eq(o.value.as_str(), "0.0.0.0");
        out.push(BindRow { label: o.label.clone(), value: o.value.clone(), checked, enabled });
        i += 1;
    }
    proof {
        let want = bind_rows(options(ifaces@), current@);
        assert forall|k: int| 0 <= k < out@.len() implies row_texts(out@)[k] == want[k] by {
            assert(out@[k]@.label == opts@[k].label@);
            assert(all_opts[k] == (opts@[k].label@, opts@[k].value@));
        }
        assert(row_texts(out@) =~= want);
    }
    out
}

/// An address of the setting never vanishes from the list: one of the rows holds it
/// and is checked.
pub proof fn law_bound_addresses_are_checked(
    ifaces: Seq<(Seq<char>, Seq<char>)>,
    current: Seq<char>,
    k: int,
)
    requires
        0 <= k < bound(current).len(),
    ensures
        exists|i: int|
            0 <= i < bind_rows(ifaces, current).len() && (#[trigger] bind_rows(
                ifaces,
                current,
            )[i]).checked && lower_all(bind_rows(ifaces, current)[i].value) == lower_all(
                bound(current)[k],
            ),
{
    let hosts = bound(current);
    let known = fixed() + ifaces;
    let gone = stale(hosts, known);
    let rows = bind_rows(ifaces, current);
    let opts = fixed() + gone + ifaces;
    let i = if offers(known, hosts[k]) {
        let j = choose|j: int|
            0 <= j < known.len() && lower_all((#[trigger] known[j]).1) == lower_all(hosts[k]);
        if j < fixed().len() {
            assert(opts[j] == known[j]);
            j
        } else {
            assert(opts[j + gone.len()] == known[j]);
            j + gone.len()
        }
    } else {
        lemma_stale_has(hosts, known, k);
        let j = choose|j: int| 0 <= j < gone.len() && (#[trigger] gone[j]).1 == hosts[k];
        assert(opts[fixed().len() + j] == gone[j]);
        fixed().len() + j
    };
    assert(lower_all(opts[i].1) == lower_all(hosts[k]));
    assert(checks(hosts, opts[i].1));
    assert(rows[i].checked);
}

proof fn lemma_stale_has(hosts: Seq<Seq<char>>, opts: Seq<(Seq<char>, Seq<char>)>, k: int)
    requires
        0 <= k < hosts.len(),
        !offers(opts, hosts[k]),
    ensures
        exists|j: int| 0 <= j < stale(hosts, opts).len() && (#[trigger] stale(hosts, opts)[j]).1 == hosts[k],
    decreases hosts.len(),
{
    let init = hosts.drop_last();
    let now = stale(hosts, opts);
    if k < init.len() {
        assert(init[k] == hosts[k]);
        lemma_stale_has(init, opts, k);
        let before = stale(init, opts);
        let j = choose|j: int| 0 <= j < before.len() && (#[trigger] before[j]).1 == hosts[k];
        assert(now[j] == before[j]);
    } else {
        assert(now[now.len() - 1].1 == hosts[k]);
    }
}

// ── The interfaces ───────────────────────────────────────────────────────

/// An interface: its name, and its IPv4 address and mask where it has one.
#[derive(Debug, Clone, PartialEq, Eq)]
pub struct Iface {
    pub name: String,
    pub v4: Option<(u32, u32)>,
}

/// An address in dotted decimal.
pub open spec fn dotted(ip: u32) -> Seq<char> {
    dec((ip / 0x100_0000) as nat) + "."@ + dec((ip / 0x1_0000 % 0x100) as nat) + "."@ + dec(
        (ip / 0x100 % 0x100) as nat,
    ) + "."@ + dec((ip % 0x100) as nat)
}

/// An address in dotted decimal.
pub fn dotted_text(ip: u32) -> (r: String)
    ensures
        r@ == dotted(ip),
{
    let mut out: String = String::new();
    push_dec(&mut out, (ip / 0x100_0000) as u64);
    assert(out@ =~= dec((ip / 0x100_0000) as nat));
    out.append(".");
    push_dec(&mut out, (ip / 0x1_0000 % 0x100) as u64);
    out.append(".");
    push_dec(&mut out, (ip / 0x100 % 0x100) as u64);
    out.append(".");
    push_dec(&mut out, (ip % 0x100) as u64);
    out
}

/// How many bits of a number are set.
pub open spec fn ones(n: nat) -> nat
    decreases n,
{
    if n == 0 {
        0
    } else {
        n % 2 + ones(n / 2)
    }
}

/// The length of a mask's prefix.
pub fn netmask_to_prefix(mask: u32) -> (r: u32)
    ensures
        r == ones(mask as nat),
        r <= 32,
{
    let mut n: u32 = 0;
    let mut left: u32 = mask;
    let mut i: u32 = 0;
    assert(pow2_at(32) == 0x1_0000_0000) by {
        reveal_with_fuel(pow2_at, 33);
    }
    while left > 0
        invariant
            ones(mask as nat) == n + ones(left as nat),
            n <= i,
            i <= 32,
            left < pow2_at((32 - i) as nat),
        decreases left,
    {
        proof {
            assert(i < 32) by {
                if i == 32 {
                    assert(pow2_at(0) == 1);
                }
            }
            assert(pow2_at((32 - i) as nat) == 2 * pow2_at((31 - i) as nat));
        }
        n = n + left % 2;
        left = left / 2;
        i = i + 1;
    }
    n
}

spec fn pow2_at(n: nat) -> nat
    decreases n,
{
    if n == 0 {
        1
    } else {
        2 * pow2_at((n - 1) as nat)
    }
}

/// The network of an address.
pub fn network_of(ip: u32, mask: u32) -> (r: u32)
    ensures
        r == ip & mask,
{
    ip & mask
}

/// Whether an address can be reached from other machines: neither loopback nor
/// link-local.
pub open spec fn usable(ip: u32) -> bool {
    ip / 0x100_0000 != 127 && ip / 0x1_0000 != 169 * 256 + 254
}

/// The row of an interface.
pub open spec fn iface_row(name: Seq<char>, ip: u32, mask: u32) -> (Seq<char>, Seq<char>) {
    (
        dotted(ip) + " ("@ + name + ", "@ + dotted(ip & mask) + "/"@ + dec(ones(mask as nat)) + ")"@,
        dotted(ip),
    )
}

/// An interface that gets a row: its name and its address in dotted decimal, by
/// which it is ordered.
pub open spec fn sorts_before(a: (Seq<char>, Seq<char>), b: (Seq<char>, Seq<char>)) -> bool {
    text_less(a.0, b.0) || (a.0 == b.0 && text_less(a.1, b.1))
}

/// Where a row belongs: behind all that do not sort after it.
pub open spec fn slot(keys: Seq<(Seq<char>, Seq<char>)>, key: (Seq<char>, Seq<char>)) -> int
    decreases keys.len(),
{
    if keys.len() == 0 {
        0
    } else if sorts_before(key, keys.last()) {
        slot(keys.drop_last(), key)
    } else {
        keys.len() as int
    }
}

/// The keys and rows of the usable interfaces, in order.
pub open spec fn usable_rows(v: Seq<Iface>) -> (
    Seq<(Seq<char>, Seq<char>)>,
    Seq<(Seq<char>, Seq<char>)>,
)
    decreases v.len(),
{
    if v.len() == 0 {
        (Seq::empty(), Seq::empty())
    } else {
        let (keys, rows) = usable_rows(v.drop_last());
        match v.last().v4 {
            Some((ip, mask)) => if usable(ip) {
                let key = (v.last().name@, dotted(ip));
                (
                    keys.insert(slot(keys, key), key),
                    rows.insert(slot(keys, key), iface_row(v.last().name@, ip, mask)),
                )
            } else {
                (keys, rows)
            },
            None => (keys, rows),
        }
    }
}

pub open spec fn key_texts(v: Seq<(String, String)>) -> Seq<(Seq<char>, Seq<char>)> {
    v.map_values(|p: (String, String)| (p.0@, p.1@))
}

fn comes_before(a_name: &str, a_ip: &str, b: &(String, String)) -> (r: bool)
    ensures
        r == sorts_before((a_name@, a_ip@), (b.0@, b.1@)),
{
    str_less(a_name, b.0.as_str()) || (str_eq(a_name, b.0.as_str()) && str_less(a_ip, b.1.as_str()))
}

fn find_slot(keys: &Vec<(String, String)>, name: &str, ip: &str) -> (r: usize)
    ensures
        r == slot(key_texts(keys@), (name@, ip@)),
        r <= keys@.len(),
{
    let ghost ks = key_texts(keys@);
    let mut i: usize = keys.len();
    assert(ks.take(i as int) =~= ks);
    while i > 0
        invariant
            i <= keys@.len(),
            ks == key_texts(keys@),
            slot(ks, (name@, ip@)) == slot(ks.take(i as int), (name@, ip@)),
        decreases i,
    {
        proof {
            assert(ks.take(i as int).last() == (keys@[i - 1].0@, keys@[i - 1].1@));
            assert(ks.take(i as int).drop_last() =~= ks.take(i - 1));
        }
        if !comes_before(name, ip, &keys[i - 1]) {
            return i;
        }
        i -= 1;
    }
    0
}

/// The rows of the interfaces of a machine that can be reached, in the order of
/// their names and addresses.
pub fn interface_rows(v: &Vec<Iface>) -> (r: Vec<BindOption>)
    ensures
        options(r@) == usable_rows(v@).1,
{
    let mut keys: Vec<(String, String)> = Vec::new();
    let mut out: Vec<BindOption> = Vec::new();
    let mut i: usize = 0;
    assert(v@.take(0) =~= Seq::<Iface>::empty());
    assert(key_texts(keys@) =~= usable_rows(v@.take(0)).0);
    assert(options(out@) =~= usable_rows(v@.take(0)).1);
    while i < v.len()
        invariant
            i <= v.len(),
            keys@.len() == out@.len(),
            key_texts(keys@) == usable_rows(v@.take(i as int)).0,
            options(out@) == usable_rows(v@.take(i as int)).1,
        decreases v.len() - i,
    {
        let ghost k0 = key_texts(keys@);
        let ghost o0 = options(out@);
        proof {
            assert(v@.take(i + 1).drop_last() =~= v@.take(i as int));
            assert(v@.take(i + 1).last() == v@[i as int]);
        }
        if let Some((ip, mask)) = v[i].v4 {
            if ip / 0x100_0000 != 127 && ip / 0x1_0000 != 169 * 256 + 254 {
                let address = dotted_text(ip);
                let mut label: String = address.clone();
                label.append(" (");
                label.append(v[i].name.as_str());
                label.append(", ");
                let net = dotted_text(network_of(ip, mask));
                label.append(net.as_str());
                label.append("/");
                push_dec(&mut label, netmask_to_prefix(mask) as u64);
                label.append(")");
                let at: usize = find_slot(&keys, v[i].name.as_str(), address.as_str());
                let ghost row = (label@, address@);
                let ghost key = (v@[i as int].name@, address@);
                assert(row == iface_row(v@[i as int].name@, ip, mask));
                out.insert(at, BindOption { label, value: address.clone() });
                keys.insert(at, (v[i].name.clone(), address));
                assert(key_texts(keys@) =~= k0.insert(at as int, key));
                assert(options(out@) =~= o0.insert(at as int, row));
            }
        }
        i += 1;
    }
    assert(v@.take(v@.len() as int) =~= v@);
    out
}

} // verus!
