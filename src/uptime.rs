use vstd::prelude::*;
use vstd::string::StringExecFns;
use crate::text::{decimal, push_decimal};

verus! {

/// Whether a logged event starts or ends a working session.
#[derive(Clone, Copy, Debug, PartialEq, Eq, Structural)]
pub enum EventType {
    Come,
    Leave,
}

/// The source of a logged event.
#[derive(Debug, Default)]
pub struct Provider {
    pub name: String,
}

/// A logged event; `time` is its time of day in seconds since midnight.
#[derive(Clone, Copy, Debug, PartialEq, Eq, Structural)]
pub struct Event {
    pub event_type: EventType,
    pub time: u32,
}

/// The time of the first event after `time`, if any.
pub fn get_next_event(events: &Vec<Event>, time: u32) -> (r: Option<u32>)
    ensures
        match r {
            Some(t) => exists|i: int|
                0 <= i < events@.len() && events@[i].time == t && t > time && forall|j: int|
                    0 <= j < i ==> events@[j].time <= time,
            None => forall|j: int| 0 <= j < events@.len() ==> events@[j].time <= time,
        },
{
    let mut i: usize = 0;
    while i < events.len()
        invariant
            i <= events@.len(),
            forall|j: int| 0 <= j < i ==> events@[j].time <= time,
        decreases events@.len() - i,
    {
        if events[i].time > time {
            return Some(events[i].time);
        }
        i += 1;
    }
    None
}

/// The text of a duration of `seconds`: whole hours and the minutes past them
/// ("2h 5m", "2h"), or, under an hour or below zero, the minutes alone ("-5m").
/// Both counts are truncated toward zero.
pub open spec fn delta_text(seconds: int) -> Seq<char> {
    let mag: nat = if seconds < 0 { (-seconds) as nat } else { seconds as nat };
    let hours = mag / 3600;
    let minutes = (mag / 60) % 60;
    if seconds >= 0 && hours > 0 {
        if minutes > 0 {
            decimal(hours) + "h "@ + decimal(minutes) + "m"@
        } else {
            decimal(hours) + "h"@
        }
    } else if seconds < 0 && minutes > 0 {
        "-"@ + decimal(minutes) + "m"@
    } else {
        decimal(minutes) + "m"@
    }
}

/// The text of a duration given in seconds (see `delta_text`).
pub fn format_delta(seconds: i64) -> (r: String)
    ensures
        r@ == delta_text(seconds as int),
{
    proof {
        reveal_strlit("h ");
        reveal_strlit("h");
        reveal_strlit("m");
        reveal_strlit("-");
    }
    let mag: u64 = if seconds < 0 {
        ((-(seconds + 1)) as u64) + 1
    } else {
        seconds as u64
    };
    let hours = mag / 3600;
    let minutes = (mag / 60) % 60;
    let mut out = String::new();
    if seconds >= 0 && hours > 0 {
        push_decimal(&mut out, hours);
        if minutes > 0 {
            out.append("h ");
            push_decimal(&mut out, minutes);
            out.append("m");
        } else {
            out.append("h");
        }
    } else {
        if seconds < 0 && minutes > 0 {
            out.append("-");
        }
        push_decimal(&mut out, minutes);
        out.append("m");
    }
    proof {
        assert(out@ =~= delta_text(seconds as int));
    }
    out
}

} // verus!
