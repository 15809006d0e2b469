//! Power status text from battery and AC readings.

use vstd::prelude::*;
use crate::render::{decimal, push_decimal};
use crate::text::{chars_eq, chars_of, trim, trimmed, views};

verus! {

/// "Battery <idx>: <status> (<capacity>%)", with status and capacity trimmed.
pub open spec fn battery_text(idx: nat, status: Seq<char>, capacity: Seq<char>) -> Seq<char> {
    "Battery "@ + decimal(idx) + ": "@ + trim(status) + " ("@ + trim(capacity) + "%)"@
}

fn append_trimmed(s: &mut String, t: &str)
    ensures
        final(s)@ == old(s)@ + trim(t@),
{
    let v = chars_of(t);
    let w = trimmed(&v, 0, v.len());
    assert(v@.subrange(0, v@.len() as int) =~= v@);
    let piece = crate::text::string_of(&w, 0, w.len());
    assert(w@.subrange(0, w@.len() as int) =~= w@);
    s.append(piece.as_str());
}

/// One battery's summary.
pub fn battery_summary(idx: u64, status: &str, capacity: &str) -> (r: String)
    ensures
        r@ == battery_text(idx as nat, status@, capacity@),
{
    let mut r = "Battery ".to_owned();
    push_decimal(&mut r, idx);
    r.append(": ");
    append_trimmed(&mut r, status);
    r.append(" (");
    append_trimmed(&mut r, capacity);
    r.append("%)");
    r
}

/// The AC adapter state from its `online` reading ("1" or "0" once
/// trimmed), none when the adapter is absent.
pub open spec fn ac_text(online: Option<Seq<char>>) -> Seq<char> {
    match online {
        Some(o) => if trim(o) == "1"@ {
            "AC: Connected"@
        } else if trim(o) == "0"@ {
            "AC: Disconnected"@
        } else {
            "AC: Unknown"@
        },
        None => "AC: Unknown"@,
    }
}

/// Summarises the AC adapter.
pub fn ac_summary(online: Option<&str>) -> (r: &'static str)
    ensures
        r@ == ac_text(
            match online {
                Some(o) => Some(o@),
                None => None,
            },
        ),
{
    match online {
        Some(o) => {
            let v = chars_of(o);
            let t = trimmed(&v, 0, v.len());
            assert(v@.subrange(0, v@.len() as int) =~= v@);
            if chars_eq(&t, &chars_of("1")) {
                "AC: Connected"
            } else if chars_eq(&t, &chars_of("0")) {
                "AC: Disconnected"
            } else {
                "AC: Unknown"
            }
        },
        None => "AC: Unknown",
    }
}

/// The AC adapter state shown in the detailed view.
pub open spec fn ac_state_text(online: Seq<char>) -> Seq<char> {
    if trim(online) == "1"@ {
        "Connected (Charging)"@
    } else if trim(online) == "0"@ {
        "Disconnected (On battery)"@
    } else {
        "Unknown"@
    }
}

/// Describes the AC adapter state for the detailed view.
pub fn ac_state(online: &str) -> (r: &'static str)
    ensures
        r@ == ac_state_text(online@),
{
    let v = chars_of(online);
    let t = trimmed(&v, 0, v.len());
    assert(v@.subrange(0, v@.len() as int) =~= v@);
    if chars_eq(&t, &chars_of("1")) {
        "Connected (Charging)"
    } else if chars_eq(&t, &chars_of("0")) {
        "Disconnected (On battery)"
    } else {
        "Unknown"
    }
}

/// The parts joined with " | " between neighbours.
pub open spec fn join_bar(parts: Seq<Seq<char>>) -> Seq<char>
    decreases parts.len(),
{
    if parts.len() == 0 {
        Seq::empty()
    } else if parts.len() == 1 {
        parts[0]
    } else {
        join_bar(parts.drop_last()) + " | "@ + parts.last()
    }
}

/// The power summary: the batteries found (or "Battery: Not detected"),
/// then the AC state.
pub open spec fn power_text(batteries: Seq<Seq<char>>, ac: Seq<char>) -> Seq<char> {
    (if batteries.len() == 0 {
        "Battery: Not detected"@
    } else {
        join_bar(batteries)
    }) + " | "@ + ac
}

/// Builds the power summary line.
pub fn power_summary(batteries: &Vec<String>, ac: &str) -> (r: String)
    ensures
        r@ == power_text(views(batteries@), ac@),
{
    let mut r = String::new();
    if batteries.len() == 0 {
        r.append("Battery: Not detected");
    } else {
        let mut k: usize = 0;
        while k < batteries.len()
            invariant
                k <= batteries.len(),
                r@ == join_bar(views(batteries@).take(k as int)),
            decreases batteries.len() - k,
        {
            let ghost parts = views(batteries@).take(k + 1);
            assert(parts.drop_last() =~= views(batteries@).take(k as int));
            if k > 0 {
                r.append(" | ");
            }
            r.append(batteries[k].as_str());
            k += 1;
            assert(r@ =~= join_bar(parts));
        }
        assert(views(batteries@).take(batteries.len() as int) =~= views(batteries@));
    }
    r.append(" | ");
    r.append(ac);
    r
}

} // verus!
