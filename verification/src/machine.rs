//! What the report says of the machine: whether two runs had the same one.
use vstd::prelude::*;
use vstd::string::*;
use crate::bench::pairs;
use crate::stamp::{boot_moment, booted_text, civil_of, human_of, uptime_text};
use crate::text::{contains, str_contains};

verus! {

/// A display adapter as the system registers it.
#[derive(Debug, Clone, PartialEq, Eq)]
pub struct Adapter {
    pub desc: String,
    pub version: String,
    pub date: String,
}

/// The row of an adapter.
pub open spec fn adapter_row(a: Adapter) -> (Seq<char>, Seq<char>) {
    (
        "display driver ("@ + a.desc@ + ")"@,
        if a.date@.len() > 0 {
            a.version@ + ", dated "@ + a.date@
        } else {
            a.version@
        },
    )
}

/// The rows of the adapters. Those of remote sessions are no hardware.
pub open spec fn adapter_rows(v: Seq<Adapter>) -> Seq<(Seq<char>, Seq<char>)>
    decreases v.len(),
{
    if v.len() == 0 {
        Seq::empty()
    } else {
        let before = adapter_rows(v.drop_last());
        if contains(v.last().desc@, "Remote Display"@) {
            before
        } else {
            before.push(adapter_row(v.last()))
        }
    }
}

/// The row about the start of the machine, where the uptime is known. A clock that
/// was moved back gives the epoch, never a moment to come.
pub open spec fn boot_rows(now: u64, uptime: Option<u64>) -> Seq<(Seq<char>, Seq<char>)> {
    match uptime {
        Some(up) => seq![
            (
                "booted"@,
                human_of(civil_of(boot_moment(now, up))) + " ("@ + uptime_text(up) + ")"@,
            ),
        ],
        None => Seq::empty(),
    }
}

/// The rows about the machine: when it started, and the drivers of its display
/// adapters. What could not be read is left out.
pub fn stamp(now_secs: u64, uptime: Option<u64>, adapters: &Vec<Adapter>) -> (r: Vec<(String, String)>)
    ensures
        pairs(r@) == boot_rows(now_secs, uptime) + adapter_rows(adapters@),
{
    let mut out: Vec<(String, String)> = Vec::new();
    if let Some(up) = uptime {
        out.push(("booted".to_owned(), booted_text(now_secs, up)));
    }
    let ghost head = boot_rows(now_secs, uptime);
    assert(pairs(out@) =~= head);
    let mut i: usize = 0;
    assert(adapters@.take(0) =~= Seq::<Adapter>::empty());
    assert(pairs(out@) =~= head + adapter_rows(adapters@.take(0)));
    while i < adapters.len()
        invariant
            i <= adapters.len(),
            pairs(out@) == head + adapter_rows(adapters@.take(i as int)),
        decreases adapters.len() - i,
    {
        let ghost before = out@;
        proof {
            assert(adapters@.take(i + 1).drop_last() =~= adapters@.take(i as int));
            assert(adapters@.take(i + 1).last() == adapters@[i as int]);
        }
        let a = &adapters[i];
        if !str_contains(a.desc.as_str(), "Remote Display") {
            let mut label: String = "display driver (".to_owned();
            label.append(a.desc.as_str());
            label.append(")");
            let mut value: String = a.version.clone();
            if !a.date.as_str().is_empty() {
                value.append(", dated ");
                value.append(a.date.as_str());
            }
            let ghost row = (label@, value@);
            out.push((label, value));
            proof {
                assert(row == adapter_row(adapters@[i as int]));
                assert(pairs(out@) =~= pairs(before).push(row));
                assert(pairs(out@) =~= head + adapter_rows(adapters@.take(i + 1)));
            }
        }
        i += 1;
    }
    assert(adapters@.take(adapters@.len() as int) =~= adapters@);
    out
}

} // verus!
