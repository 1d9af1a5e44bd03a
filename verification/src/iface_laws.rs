//! What the list of listening addresses offers, and what checking one comes to.
use vstd::arithmetic::power2::{lemma2_to64, lemma_pow2_adds, lemma_pow2_pos, lemma_pow2_unfold, pow2};
use vstd::prelude::*;
use vstd::string::*;
use crate::net_ifaces::{
    bind_rows, bound, checks, dotted, fixed, iface_row, lemma_find_bound, ones, slot, sorts_before, stale,
    toggled_hosts, usable, usable_rows, without_all, Iface,
};
use crate::text::{
    dec, entries, find_ignore_case, lemma_text_less_total, lemma_text_less_transitive, lower_all,
    text_less,
};

verus! {

proof fn lemma_nothing_to_drop(v: Seq<Seq<char>>)
    requires
        !v.contains("0.0.0.0"@),
    ensures
        without_all(v) == v,
    decreases v.len(),
{
    if v.len() > 0 {
        let init = v.drop_last();
        assert forall|i: int| 0 <= i < init.len() implies init[i] != "0.0.0.0"@ by {
            assert(v[i] == init[i]);
            assert(v.contains(v[i]));
        }
        lemma_nothing_to_drop(init);
        assert(v.contains(v[v.len() - 1]));
        assert(init.push(v.last()) =~= v);
    } else {
        assert(without_all(v) =~= v);
    }
}

/// An address that is checked comes behind those that were there. One that is unchecked
/// goes, and the others stay as they were; the last one that goes leaves localhost.
/// The address of all interfaces takes the place of the others, and gives its place to
/// the next one that is checked.
pub proof fn law_toggle_edits(hosts: Seq<Seq<char>>, value: Seq<char>, at: int)
    requires
        !hosts.contains("0.0.0.0"@) || hosts == seq!["0.0.0.0"@],
        0 <= at < hosts.len() ==> lower_all(hosts[at]) == lower_all(value) && forall|k: int|
            0 <= k < at ==> lower_all(#[trigger] hosts[k]) != lower_all(value),
        !(0 <= at < hosts.len()) ==> forall|k: int|
            0 <= k < hosts.len() ==> lower_all(#[trigger] hosts[k]) != lower_all(value),
    ensures
        ({
            let now = toggled_hosts(hosts, value);
            if 0 <= at < hosts.len() {
                if hosts.len() == 1 {
                    now == seq!["localhost"@]
                } else {
                    now == hosts.remove(at)
                }
            } else if value == "0.0.0.0"@ || hosts == seq!["0.0.0.0"@] {
                now == seq![value]
            } else {
                now == hosts.push(value)
            }
        }),
{
    lemma_find_bound(hosts, value);
    lemma_find_first(hosts, value);
    if 0 <= at < hosts.len() {
        assert(find_ignore_case(hosts, value) == at);
        let rest = hosts.remove(at);
        if hosts.len() >= 2 {
            assert(!rest.contains("0.0.0.0"@)) by {
                if rest.contains("0.0.0.0"@) {
                    let k = choose|k: int| 0 <= k < rest.len() && rest[k] == "0.0.0.0"@;
                    let j = if k < at {
                        k
                    } else {
                        k + 1
                    };
                    assert(hosts[j] == "0.0.0.0"@);
                    assert(hosts.contains(hosts[j]));
                }
            }
            lemma_nothing_to_drop(rest);
        }
    } else {
        assert(find_ignore_case(hosts, value) < 0);
        if !hosts.contains("0.0.0.0"@) {
            lemma_nothing_to_drop(hosts);
        } else {
            assert(hosts.len() == 1 && hosts.last() == "0.0.0.0"@);
            let none = hosts.drop_last();
            assert(without_all(none).len() == 0);
            assert(without_all(hosts) == without_all(none));
            assert(without_all(hosts).push(value) =~= seq![value]);
        }
    }
}

proof fn lemma_find_first(v: Seq<Seq<char>>, x: Seq<char>)
    ensures
        forall|k: int|
            0 <= k < find_ignore_case(v, x) ==> lower_all(#[trigger] v[k]) != lower_all(x),
    decreases v.len(),
{
    if v.len() > 0 {
        let init = v.drop_last();
        lemma_find_first(init, x);
        lemma_find_bound(init, x);
        assert forall|k: int| 0 <= k < find_ignore_case(v, x) implies lower_all(#[trigger] v[k])
            != lower_all(x) by {
            assert(v[k] == init[k]);
        }
    }
}

/// Every row says whether its address is bound, and can be checked unless the address of
/// all interfaces is. Nothing bound means localhost. The two fixed addresses head the
/// list, and every interface is in it.
pub proof fn law_rows_offer_everything(
    ifaces: Seq<(Seq<char>, Seq<char>)>,
    current: Seq<char>,
    hosts: Seq<Seq<char>>,
)
    requires
        entries(current, ',').len() == 0 ==> hosts == seq!["localhost"@],
        entries(current, ',').len() > 0 ==> hosts == entries(current, ','),
    ensures
        ({
            let rows = bind_rows(ifaces, current);
            &&& rows.len() >= 2 + ifaces.len()
            &&& rows[0].value == "localhost"@
            &&& rows[1].value == "0.0.0.0"@
            &&& forall|i: int|
                0 <= i < rows.len() ==> ((#[trigger] rows[i]).checked <==> exists|k: int|
                    0 <= k < hosts.len() && lower_all(#[trigger] hosts[k]) == lower_all(rows[i].value))
            &&& forall|i: int|
                0 <= i < rows.len() ==> ((#[trigger] rows[i]).enabled <==> !hosts.contains("0.0.0.0"@)
                    || rows[i].value == "0.0.0.0"@)
            &&& forall|k: int|
                0 <= k < ifaces.len() ==> (#[trigger] rows[rows.len() - ifaces.len() + k]).label
                    == ifaces[k].0 && rows[rows.len() - ifaces.len() + k].value == ifaces[k].1
        }),
{
    assert(hosts == bound(current));
    let gone = stale(hosts, fixed() + ifaces);
    let opts = fixed() + gone + ifaces;
    let rows = bind_rows(ifaces, current);
    assert(rows.len() == opts.len());
    assert forall|k: int| 0 <= k < ifaces.len() implies (#[trigger] rows[rows.len() - ifaces.len()
        + k]).label == ifaces[k].0 && rows[rows.len() - ifaces.len() + k].value == ifaces[k].1 by {
        assert(opts[rows.len() - ifaces.len() + k] == ifaces[k]);
    }
    assert(opts[0] == fixed()[0] && opts[1] == fixed()[1]);
    assert(rows[0].value == "localhost"@ && rows[1].value == "0.0.0.0"@);
    assert forall|i: int| 0 <= i < rows.len() implies ((#[trigger] rows[i]).checked <==> exists|k: int|
        0 <= k < hosts.len() && lower_all(#[trigger] hosts[k]) == lower_all(rows[i].value)) by {
        assert(rows[i].checked == checks(hosts, rows[i].value));
    }
}

/// An address is written byte by byte, the first one first.
pub proof fn law_dotted_bytes(a: u8, b: u8, c: u8, d: u8, ip: u32)
    requires
        ip == a * 0x100_0000 + b * 0x1_0000 + c * 0x100 + d,
    ensures
        dotted(ip) == dec(a as nat) + "."@ + dec(b as nat) + "."@ + dec(c as nat) + "."@ + dec(d as nat),
        usable(ip) <==> a != 127 && !(a == 169 && b == 254),
{
    let x = ip as int;
    let high = a as int * 0x100 + b as int;
    let three = high * 0x100 + c as int;
    assert(x == three * 0x100 + d as int);
    assert(x / 0x100 == three && x % 0x100 == d as int);
    assert(three / 0x100 == high && three % 0x100 == c as int);
    assert(high / 0x100 == a as int && high % 0x100 == b as int);
    assert(x / 0x1_0000 == high);
    assert(x / 0x100_0000 == a as int);
    assert((ip / 0x100_0000) as nat == a as nat);
    assert((ip / 0x1_0000 % 0x100) as nat == b as nat);
    assert((ip / 0x100 % 0x100) as nat == c as nat);
    assert((ip % 0x100) as nat == d as nat);
}

/// The prefix of a mask is the number of its leading ones.
pub proof fn law_prefix_of_mask(n: nat, mask: nat)
    requires
        n <= 32,
        mask == pow2(32) - pow2((32 - n) as nat),
    ensures
        ones(mask) == n,
{
    let z = (32 - n) as nat;
    lemma_pow2_adds(n, z);
    lemma_pow2_pos(n);
    lemma_pow2_pos(z);
    let ones_below = (pow2(n) - 1) as nat;
    assert(mask == ones_below * pow2(z)) by (nonlinear_arith)
        requires
            mask == pow2(n) * pow2(z) - pow2(z),
            ones_below == pow2(n) - 1,
    ;
    lemma_ones_shifted(ones_below, z);
    lemma_ones_below(n);
}

proof fn lemma_ones_shifted(m: nat, z: nat)
    ensures
        ones(m * pow2(z)) == ones(m),
    decreases z,
{
    if z == 0 {
        lemma2_to64();
        assert(m * pow2(0) == m) by (nonlinear_arith)
            requires
                pow2(0) == 1,
        ;
    } else {
        let y = (z - 1) as nat;
        lemma_ones_shifted(m, y);
        lemma_pow2_unfold(z);
        let x = m * pow2(y);
        assert(m * pow2(z) == 2 * x) by (nonlinear_arith)
            requires
                pow2(z) == 2 * pow2(y),
                x == m * pow2(y),
        ;
        assert((2 * x) % 2 == 0 && (2 * x) / 2 == x);
        if x == 0 {
            assert(2 * x == 0);
        }
    }
}

proof fn lemma_ones_below(n: nat)
    ensures
        ones((pow2(n) - 1) as nat) == n,
    decreases n,
{
    lemma_pow2_pos(n);
    if n == 0 {
        lemma2_to64();
    } else {
        let k = (n - 1) as nat;
        lemma_ones_below(k);
        lemma_pow2_unfold(n);
        lemma_pow2_pos(k);
        let x = (pow2(n) - 1) as nat;
        assert(x == 2 * (pow2(k) - 1) + 1);
        assert(x % 2 == 1 && x / 2 == pow2(k) - 1);
    }
}

/// Every interface with a reachable address has a row with that address, as often as it
/// was found, and no other has one; the rows are in the order of the names, and of the
/// addresses where two names are the same.
pub proof fn law_usable_interfaces_are_listed(v: Seq<Iface>, k: int)
    requires
        0 <= k < v.len(),
        v[k].v4 is Some,
    ensures
        ({
            let (ip, mask) = v[k].v4->0;
            usable(ip) ==> exists|i: int|
                0 <= i < usable_rows(v).1.len() && #[trigger] usable_rows(v).1[i] == iface_row(
                    v[k].name@,
                    ip,
                    mask,
                ) && usable_rows(v).1[i].1 == dotted(ip)
        }),
    decreases v.len(),
{
    let (ip, mask) = v[k].v4->0;
    if usable(ip) {
        let init = v.drop_last();
        let (keys, rows) = usable_rows(init);
        let now = usable_rows(v).1;
        let row = iface_row(v[k].name@, ip, mask);
        lemma_lengths(init);
        if k < init.len() {
            assert(init[k] == v[k]);
            law_usable_interfaces_are_listed(init, k);
            let i = choose|i: int| 0 <= i < usable_rows(init).1.len() && #[trigger] usable_rows(init).1[i]
                == row && usable_rows(init).1[i].1 == dotted(ip);
            match v.last().v4 {
                Some((other, m2)) => {
                    if usable(other) {
                        let key = (v.last().name@, dotted(other));
                        lemma_slot_bound(keys, key);
                        let at = slot(keys, key);
                        let j = if i < at {
                            i
                        } else {
                            i + 1
                        };
                        assert(now[j] == row);
                    } else {
                        assert(now[i] == row);
                    }
                },
                None => {
                    assert(now[i] == row);
                },
            }
        } else {
            let key = (v.last().name@, dotted(ip));
            lemma_slot_bound(keys, key);
            assert(now[slot(keys, key)] == row);
        }
    }
}

proof fn lemma_slot_bound(keys: Seq<(Seq<char>, Seq<char>)>, key: (Seq<char>, Seq<char>))
    ensures
        0 <= slot(keys, key) <= keys.len(),
        forall|i: int| slot(keys, key) <= i < keys.len() ==> sorts_before(key, #[trigger] keys[i]),
        slot(keys, key) > 0 ==> !sorts_before(key, keys[slot(keys, key) - 1]),
    decreases keys.len(),
{
    if keys.len() > 0 && sorts_before(key, keys.last()) {
        let init = keys.drop_last();
        lemma_slot_bound(init, key);
        assert forall|i: int| slot(keys, key) <= i < keys.len() implies sorts_before(
            key,
            #[trigger] keys[i],
        ) by {
            if i < init.len() {
                assert(init[i] == keys[i]);
            }
        }
    }
}

proof fn lemma_lengths(v: Seq<Iface>)
    ensures
        usable_rows(v).0.len() == usable_rows(v).1.len(),
        forall|i: int|
            0 <= i < usable_rows(v).0.len() ==> (#[trigger] usable_rows(v).0[i]).1 == usable_rows(
                v,
            ).1[i].1,
    decreases v.len(),
{
    if v.len() > 0 {
        let init = v.drop_last();
        lemma_lengths(init);
        let (keys, rows) = usable_rows(init);
        if let Some((ip, mask)) = v.last().v4 {
            let key = (v.last().name@, dotted(ip));
            lemma_slot_bound(keys, key);
            let (k2, r2) = usable_rows(v);
            assert forall|i: int| 0 <= i < k2.len() implies (#[trigger] k2[i]).1 == r2[i].1 by {
                if usable(ip) {
                    let at = slot(keys, key);
                    if i < at {
                        assert(k2[i] == keys[i] && r2[i] == rows[i]);
                    } else if i > at {
                        assert(k2[i] == keys[i - 1] && r2[i] == rows[i - 1]);
                    }
                }
            }
        }
    }
}

/// The order of two interfaces, as names and addresses.
pub open spec fn after_or_same(a: (Seq<char>, Seq<char>), b: (Seq<char>, Seq<char>)) -> bool {
    text_less(b.0, a.0) || (a.0 == b.0 && !text_less(a.1, b.1))
}

/// The rows are in the order of the names, and of the addresses where two names are the
/// same.
pub proof fn law_interfaces_are_sorted(v: Seq<Iface>, i: int, j: int)
    requires
        0 <= i < j < usable_rows(v).0.len(),
    ensures
        after_or_same(usable_rows(v).0[j], usable_rows(v).0[i]),
        usable_rows(v).1[i].1 == usable_rows(v).0[i].1,
        usable_rows(v).1.len() == usable_rows(v).0.len(),
    decreases v.len(),
{
    lemma_lengths(v);
    let init = v.drop_last();
    let (keys, rows) = usable_rows(init);
    let now = usable_rows(v).0;
    match v.last().v4 {
        Some((ip, mask)) => {
            if usable(ip) {
                let key = (v.last().name@, dotted(ip));
                lemma_slot_bound(keys, key);
                let at = slot(keys, key);
                if i != at && j != at {
                    let a = if i < at {
                        i
                    } else {
                        i - 1
                    };
                    let b = if j < at {
                        j
                    } else {
                        j - 1
                    };
                    assert(now[i] == keys[a] && now[j] == keys[b]);
                    law_interfaces_are_sorted(init, a, b);
                } else if i == at {
                    assert(now[j] == keys[j - 1]);
                    assert(sorts_before(key, keys[j - 1]));
                    lemma_text_less_total(key.1, keys[j - 1].1);
                } else {
                    assert(now[i] == keys[i]);
                    lemma_not_before(key, keys[at - 1]);
                    if i < at - 1 {
                        law_interfaces_are_sorted(init, i, at - 1);
                        lemma_after_transitive(key, keys[at - 1], keys[i]);
                    }
                }
            } else {
                law_interfaces_are_sorted(init, i, j);
            }
        },
        None => {
            law_interfaces_are_sorted(init, i, j);
        },
    }
}

proof fn lemma_not_before(a: (Seq<char>, Seq<char>), b: (Seq<char>, Seq<char>))
    requires
        !sorts_before(a, b),
    ensures
        after_or_same(a, b),
{
    lemma_text_less_total(a.0, b.0);
}

proof fn lemma_after_transitive(
    a: (Seq<char>, Seq<char>),
    b: (Seq<char>, Seq<char>),
    c: (Seq<char>, Seq<char>),
)
    requires
        after_or_same(a, b),
        after_or_same(b, c),
    ensures
        after_or_same(a, c),
{
    if text_less(c.0, b.0) && text_less(b.0, a.0) {
        lemma_text_less_transitive(c.0, b.0, a.0);
    }
    if a.0 == b.0 && b.0 == c.0 && text_less(a.1, c.1) {
        lemma_text_less_total(a.1, b.1);
        lemma_text_less_total(b.1, c.1);
        if text_less(b.1, a.1) {
            lemma_text_less_transitive(b.1, a.1, c.1);
        }
    }
}

} // verus!
