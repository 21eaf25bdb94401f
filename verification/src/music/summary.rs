//! Pairing of note events for the detected-notes table.
use vstd::prelude::*;
use crate::music::transcriber::{NoteEvent, NoteEventType};

verus! {

/// `e` is a `Started` event at time `ts`.
pub open spec fn opens_at(e: NoteEvent, ts: u64) -> bool {
    e.event_type == NoteEventType::Started && e.timestamp_ms == ts
}

/// `e` is an `Ended` event for the note called `name`.
pub open spec fn closes(e: NoteEvent, name: Seq<char>) -> bool {
    e.event_type == NoteEventType::Ended && e.note_name@ == name
}

/// Position of the first `Started` event at time `ts`, from position `i`
/// on (the length of `events` if there is none).
pub open spec fn first_opening_from(events: Seq<NoteEvent>, ts: u64, i: int) -> int
    decreases events.len() - i,
{
    if i >= events.len() {
        events.len() as int
    } else if opens_at(events[i], ts) {
        i
    } else {
        first_opening_from(events, ts, i + 1)
    }
}

/// Position of the first `Ended` event for `name`, from position `i` on.
pub open spec fn first_closing_from(events: Seq<NoteEvent>, name: Seq<char>, i: int) -> Option<int>
    decreases events.len() - i,
{
    if i >= events.len() {
        None
    } else if closes(events[i], name) {
        Some(i)
    } else {
        first_closing_from(events, name, i + 1)
    }
}

/// The `Ended` event listed against the `Started` event at position `s`:
/// the first `Ended` event for the same note after the first `Started`
/// event with the same time.
pub open spec fn end_of(events: Seq<NoteEvent>, s: int) -> Option<int> {
    first_closing_from(
        events,
        events[s].note_name@,
        first_opening_from(events, events[s].timestamp_ms, 0) + 1,
    )
}

/// A line of the detected-notes table: positions of a `Started` event and
/// of the `Ended` event that closes it, if any.
#[derive(Clone, Copy, Debug, PartialEq, Eq, Structural)]
pub struct NoteSummaryRow {
    pub start: usize,
    pub end: Option<usize>,
}

fn first_opening(events: &Vec<NoteEvent>, ts: u64) -> (k: usize)
    ensures
        k == first_opening_from(events@, ts, 0),
{
    let n = events.len();
    let mut i: usize = 0;
    while i < n
        invariant
            n == events@.len(),
            i <= n,
            first_opening_from(events@, ts, i as int) == first_opening_from(events@, ts, 0),
        decreases n - i,
    {
        if events[i].event_type == NoteEventType::Started && events[i].timestamp_ms == ts {
            return i;
        }
        i = i + 1;
    }
    n
}

fn first_closing(events: &Vec<NoteEvent>, name: &String, from: usize) -> (j: Option<usize>)
    requires
        from <= events@.len(),
    ensures
        match j {
            Some(j) => first_closing_from(events@, name@, from as int) == Some(j as int),
            None => first_closing_from(events@, name@, from as int) is None,
        },
{
    let n = events.len();
    let mut i: usize = from;
    while i < n
        invariant
            n == events@.len(),
            from <= i <= n,
            first_closing_from(events@, name@, i as int) == first_closing_from(events@, name@, from as int),
        decreases n - i,
    {
        if events[i].event_type == NoteEventType::Ended && events[i].note_name.eq(name) {
            return Some(i);
        }
        i = i + 1;
    }
    None
}

/// One row per `Started` event, in order, each with the `Ended` event that
/// closes it (see [`end_of`]).
pub fn summarize_notes(events: &Vec<NoteEvent>) -> (rows: Vec<NoteSummaryRow>)
    ensures
        forall|r: int|
            0 <= r < rows@.len() ==> {
                let s = (#[trigger] rows@[r]).start as int;
                &&& s < events@.len()
                &&& events@[s].event_type == NoteEventType::Started
                &&& match rows@[r].end {
                    Some(e) => end_of(events@, s) == Some(e as int),
                    None => end_of(events@, s) is None,
                }
            },
        forall|r1: int, r2: int|
            0 <= r1 < r2 < rows@.len() ==> (#[trigger] rows@[r1]).start < (#[trigger] rows@[r2]).start,
        forall|i: int|
            0 <= i < events@.len() && (#[trigger] events@[i]).event_type == NoteEventType::Started
                ==> exists|r: int| 0 <= r < rows@.len() && (#[trigger] rows@[r]).start == i,
{
    let n = events.len();
    let mut rows: Vec<NoteSummaryRow> = Vec::new();
    let mut i: usize = 0;
    while i < n
        invariant
            n == events@.len(),
            i <= n,
            forall|r: int|
                0 <= r < rows@.len() ==> {
                    let s = (#[trigger] rows@[r]).start as int;
                    &&& s < i
                    &&& events@[s].event_type == NoteEventType::Started
                    &&& match rows@[r].end {
                        Some(e) => end_of(events@, s) == Some(e as int),
                        None => end_of(events@, s) is None,
                    }
                },
            forall|r1: int, r2: int|
                0 <= r1 < r2 < rows@.len() ==> (#[trigger] rows@[r1]).start < (#[trigger] rows@[r2]).start,
            forall|j: int|
                0 <= j < i && (#[trigger] events@[j]).event_type == NoteEventType::Started
                    ==> exists|r: int| 0 <= r < rows@.len() && (#[trigger] rows@[r]).start == j,
        decreases n - i,
    {
        if events[i].event_type == NoteEventType::Started {
            let k = first_opening(events, events[i].timestamp_ms);
            proof {
                lemma_opening_found(events@, events@[i as int].timestamp_ms, 0, i as int);
            }
            let end = first_closing(events, &events[i].note_name, k + 1);
            let ghost old_rows = rows@;
            rows.push(NoteSummaryRow { start: i, end });
            proof {
                assert forall|j: int|
                    0 <= j < i + 1 && (#[trigger] events@[j]).event_type == NoteEventType::Started
                    implies exists|r: int| 0 <= r < rows@.len() && (#[trigger] rows@[r]).start == j by {
                    if j == i {
                        assert(rows@[rows@.len() - 1].start == j);
                    } else {
                        let r = choose|r: int| 0 <= r < old_rows.len() && (#[trigger] old_rows[r]).start == j;
                        assert(rows@[r] == old_rows[r]);
                    }
                }
            }
        }
        i = i + 1;
    }
    rows
}

proof fn lemma_opening_found(events: Seq<NoteEvent>, ts: u64, from: int, at: int)
    requires
        0 <= from <= at < events.len(),
        opens_at(events[at], ts),
    ensures
        from <= first_opening_from(events, ts, from) <= at,
    decreases at - from,
{
    if !opens_at(events[from], ts) {
        lemma_opening_found(events, ts, from + 1, at);
    }
}

proof fn lemma_first_opening_from(events: Seq<NoteEvent>, ts: u64, i: int)
    requires
        0 <= i <= events.len(),
    ensures
        ({
            let o = first_opening_from(events, ts, i);
            &&& i <= o <= events.len()
            &&& o < events.len() ==> events[o].event_type == NoteEventType::Started
                && events[o].timestamp_ms == ts
            &&& forall|j: int|
                i <= j < o ==> !((#[trigger] events[j]).event_type == NoteEventType::Started
                    && events[j].timestamp_ms == ts)
        }),
    decreases events.len() - i,
{
    if i < events.len() {
        lemma_first_opening_from(events, ts, i + 1);
    }
}

proof fn lemma_first_closing_from(events: Seq<NoteEvent>, name: Seq<char>, i: int)
    requires
        0 <= i,
    ensures
        match first_closing_from(events, name, i) {
            Some(e) => {
                &&& i <= e < events.len()
                &&& events[e].event_type == NoteEventType::Ended && events[e].note_name@ == name
                &&& forall|j: int|
                    i <= j < e ==> !((#[trigger] events[j]).event_type == NoteEventType::Ended
                        && events[j].note_name@ == name)
            },
            None => forall|j: int|
                i <= j < events.len() ==> !((#[trigger] events[j]).event_type == NoteEventType::Ended
                    && events[j].note_name@ == name),
        },
    decreases events.len() - i,
{
    if i < events.len() {
        lemma_first_closing_from(events, name, i + 1);
    }
}

/// The row of a `Started` event pairs it with the first `Ended` event for
/// the same note name after the first `Started` event stamped with the same
/// time (which is this event itself unless an earlier one shares its time):
/// no `Ended` event for that name lies between the two, and when the row has
/// no end, none follows at all.
pub proof fn lemma_end_is_first_closing(events: Seq<NoteEvent>, s: int)
    requires
        0 <= s < events.len(),
        events[s].event_type == NoteEventType::Started,
    ensures
        ({
            let ts = events[s].timestamp_ms;
            let name = events[s].note_name@;
            let o = first_opening_from(events, ts, 0);
            &&& 0 <= o <= s
            &&& events[o].event_type == NoteEventType::Started && events[o].timestamp_ms == ts
            &&& forall|j: int|
                0 <= j < o ==> !((#[trigger] events[j]).event_type == NoteEventType::Started
                    && events[j].timestamp_ms == ts)
            &&& match end_of(events, s) {
                Some(e) => {
                    &&& o < e < events.len()
                    &&& events[e].event_type == NoteEventType::Ended && events[e].note_name@ == name
                    &&& forall|j: int|
                        o < j < e ==> !((#[trigger] events[j]).event_type == NoteEventType::Ended
                            && events[j].note_name@ == name)
                },
                None => forall|j: int|
                    o < j < events.len() ==> !((#[trigger] events[j]).event_type == NoteEventType::Ended
                        && events[j].note_name@ == name),
            }
        }),
{
    let ts = events[s].timestamp_ms;
    lemma_first_opening_from(events, ts, 0);
    let o = first_opening_from(events, ts, 0);
    if o > s {
        assert(events[s].event_type == NoteEventType::Started && events[s].timestamp_ms == ts);
    }
    lemma_first_closing_from(events, events[s].note_name@, o + 1);
}

} // verus!
