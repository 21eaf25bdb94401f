//! Properties that hold across segmentation steps.
use vstd::prelude::*;
use crate::music::note::spec_note_name;
use crate::music::transcriber::{
    NoteEventType, NoteEventView, NoteSegmentData, SegmenterState, segment_step, flush_events,
    step_accepts, segment_duration, flush_accepts, sum_fits, saturate_u8, trunc_div, data_wf,
    finalize_events,
};

verus! {

/// A note is open: the segmenter tracks a note whose `Started` event has
/// been reported.
pub open spec fn is_open(st: SegmenterState) -> bool {
    match st {
        SegmenterState::Silence => false,
        SegmenterState::InNote(d) => d.confirmed,
    }
}

/// Name of the tracked note.
pub open spec fn tracked_name(st: SegmenterState) -> Seq<char> {
    match st {
        SegmenterState::Silence => seq![],
        SegmenterState::InNote(d) => spec_note_name(d.note as int),
    }
}

/// MIDI number (saturated to `u8`) of the tracked note.
pub open spec fn tracked_midi(st: SegmenterState) -> u8 {
    match st {
        SegmenterState::Silence => 0,
        SegmenterState::InNote(d) => d.midi,
    }
}

/// The tracked segment's timestamps are ordered: it started no later than
/// its last frame, and a pending silence started no later than that frame.
pub open spec fn orderly(st: SegmenterState) -> bool {
    match st {
        SegmenterState::Silence => true,
        SegmenterState::InNote(d) => {
            &&& d.start_timestamp_ms <= d.last_timestamp_ms
            &&& (d.silence_start_ms matches Some(s) ==> s <= d.last_timestamp_ms)
        },
    }
}

/// `ts` is no earlier than the tracked segment's last frame.
pub open spec fn in_order(st: SegmenterState, ts: u64) -> bool {
    match st {
        SegmenterState::Silence => true,
        SegmenterState::InNote(d) => d.last_timestamp_ms <= ts,
    }
}

/// The tracked segment's frame counter can grow by one.
pub open spec fn has_room(st: SegmenterState) -> bool {
    match st {
        SegmenterState::Silence => true,
        SegmenterState::InNote(d) => d.sample_count < u32::MAX,
    }
}

/// An open note has lasted at least `min_ms`.
pub open spec fn balanced(min_ms: u64, st: SegmenterState) -> bool {
    match st {
        SegmenterState::Silence => true,
        SegmenterState::InNote(d) => d.confirmed ==> segment_duration(d) >= min_ms,
    }
}

/// Observations that arrive in time order are accepted by every step while
/// the frame counter has room, and flushing is always accepted.
pub proof fn lemma_in_order_observations_accepted(
    min_ms: u64,
    hold_ms: u64,
    transition: i32,
    st: SegmenterState,
    note: i32,
    cents: i32,
    clarity: i32,
    voiced: bool,
    ts: u64,
)
    requires
        orderly(st),
        in_order(st, ts),
        has_room(st),
    ensures
        step_accepts(hold_ms, transition, st, note, cents, voiced, ts),
        flush_accepts(st),
{
}

/// A step keeps the segment's timestamps ordered, and afterwards the
/// segment's last frame is the observation just fed (so later observations
/// are in order).
pub proof fn lemma_step_keeps_order(
    min_ms: u64,
    hold_ms: u64,
    transition: i32,
    st: SegmenterState,
    note: i32,
    cents: i32,
    clarity: i32,
    voiced: bool,
    ts: u64,
    later: u64,
)
    requires
        orderly(st),
        in_order(st, ts),
        ts <= later,
    ensures
        orderly(segment_step(min_ms, hold_ms, transition, st, note, cents, clarity, voiced, ts).0),
        in_order(segment_step(min_ms, hold_ms, transition, st, note, cents, clarity, voiced, ts).0, later),
{
}

/// Note events are well bracketed: with notes observed in time order, a
/// step reports at most one event, stamped with the observation's time;
/// `Started` (of duration 0) only when no note is open, and it opens the
/// tracked note; `Ended` only for the open note, with its name and MIDI
/// number and a duration of at least `min_ms`, and it leaves no note open;
/// a step without events leaves the open note (its name and MIDI number)
/// as it was.
pub proof fn lemma_segment_events_bracketed(
    min_ms: u64,
    hold_ms: u64,
    transition: i32,
    st: SegmenterState,
    note: i32,
    cents: i32,
    clarity: i32,
    voiced: bool,
    ts: u64,
)
    requires
        orderly(st),
        in_order(st, ts),
        balanced(min_ms, st),
    ensures
        ({
            let (next, evs) = segment_step(
                min_ms,
                hold_ms,
                transition,
                st,
                note,
                cents,
                clarity,
                voiced,
                ts,
            );
            &&& balanced(min_ms, next)
            &&& evs.len() <= 1
            &&& evs.len() == 0 ==> is_open(next) == is_open(st)
            &&& evs.len() == 0 && is_open(st) ==> tracked_name(next) == tracked_name(st)
                && tracked_midi(next) == tracked_midi(st)
            &&& evs.len() == 1 ==> evs[0].timestamp_ms == ts
            &&& evs.len() == 1 && evs[0].event_type == NoteEventType::Started ==> {
                &&& !is_open(st)
                &&& is_open(next)
                &&& evs[0].note_name == tracked_name(next)
                &&& evs[0].midi == tracked_midi(next)
                &&& evs[0].duration_ms == 0
            }
            &&& evs.len() == 1 && evs[0].event_type == NoteEventType::Ended ==> {
                &&& is_open(st)
                &&& !is_open(next)
                &&& evs[0].note_name == tracked_name(st)
                &&& evs[0].midi == tracked_midi(st)
                &&& evs[0].duration_ms >= min_ms
            }
        }),
{
}

/// Flushing closes exactly the open note: it reports one `Ended` event
/// with the open note's name and MIDI number when a note is open, and
/// nothing otherwise.
pub proof fn lemma_flush_closes_open_note(min_ms: u64, st: SegmenterState, ts: u64)
    requires
        orderly(st),
        balanced(min_ms, st),
    ensures
        is_open(st) ==> {
            let evs = flush_events(min_ms, st, ts);
            &&& evs.len() == 1
            &&& evs[0].event_type == NoteEventType::Ended
            &&& evs[0].note_name == tracked_name(st)
            &&& evs[0].midi == tracked_midi(st)
            &&& evs[0].duration_ms >= min_ms
            &&& evs[0].timestamp_ms == ts
        },
        !is_open(st) ==> flush_events(min_ms, st, ts).len() == 0,
{
}

/// One pitch observation fed to the segmenter.
pub struct Observation {
    pub note: i32,
    pub cents: i32,
    pub clarity: i32,
    pub voiced: bool,
    pub timestamp_ms: u64,
}

/// The phase reached and the events reported after feeding `obs` in order.
pub open spec fn run_segmenter(
    min_ms: u64,
    hold_ms: u64,
    transition: i32,
    st: SegmenterState,
    obs: Seq<Observation>,
) -> (SegmenterState, Seq<NoteEventView>)
    decreases obs.len(),
{
    if obs.len() == 0 {
        (st, seq![])
    } else {
        let (mid, evs) = run_segmenter(min_ms, hold_ms, transition, st, obs.drop_last());
        let o = obs.last();
        let (next, more) = segment_step(
            min_ms,
            hold_ms,
            transition,
            mid,
            o.note,
            o.cents,
            o.clarity,
            o.voiced,
            o.timestamp_ms,
        );
        (next, evs + more)
    }
}

/// Observation times never decrease, and none precedes the tracked
/// segment's last frame.
pub open spec fn times_in_order(st: SegmenterState, obs: Seq<Observation>) -> bool {
    &&& forall|i: int, j: int|
        0 <= i < j < obs.len() ==> (#[trigger] obs[i]).timestamp_ms <= (#[trigger] obs[j]).timestamp_ms
    &&& forall|i: int| 0 <= i < obs.len() ==> in_order(st, (#[trigger] obs[i]).timestamp_ms)
}

/// Event `i` of `evs` comes in turn: a `Started` follows an `Ended` (or
/// comes first when no note was open), and an `Ended` closes the note that
/// the preceding `Started` (or, first, the note open at the outset,
/// `open_name`) opened.
pub open spec fn event_in_turn(
    was_open: bool,
    open_name: Seq<char>,
    open_midi: u8,
    evs: Seq<NoteEventView>,
    i: int,
) -> bool {
    &&& evs[i].event_type == NoteEventType::Started ==> if i == 0 {
        !was_open
    } else {
        evs[i - 1].event_type == NoteEventType::Ended
    }
    &&& evs[i].event_type == NoteEventType::Ended ==> if i == 0 {
        was_open && evs[i].note_name == open_name && evs[i].midi == open_midi
    } else {
        &&& evs[i - 1].event_type == NoteEventType::Started
        &&& evs[i - 1].note_name == evs[i].note_name
        &&& evs[i - 1].midi == evs[i].midi
    }
}

/// Every event of `evs` comes in turn: they alternate between `Started`
/// and `Ended`, each `Ended` naming the note its `Started` opened.
pub open spec fn alternating(
    was_open: bool,
    open_name: Seq<char>,
    open_midi: u8,
    evs: Seq<NoteEventView>,
) -> bool {
    forall|i: int| 0 <= i < evs.len() ==> #[trigger] event_in_turn(was_open, open_name, open_midi, evs, i)
}

/// Over any run of observations in time order, the reported events
/// alternate between `Started` and `Ended`, each `Ended` carrying the name
/// and MIDI number of the note its `Started` opened; a note is left open exactly when the last event
/// is a `Started` (or, with no events, when one was open to begin with).
pub proof fn lemma_run_events_alternate(
    min_ms: u64,
    hold_ms: u64,
    transition: i32,
    st: SegmenterState,
    obs: Seq<Observation>,
)
    requires
        orderly(st),
        balanced(min_ms, st),
        times_in_order(st, obs),
    ensures
        ({
            let (end, evs) = run_segmenter(min_ms, hold_ms, transition, st, obs);
            &&& alternating(is_open(st), tracked_name(st), tracked_midi(st), evs)
            &&& is_open(end) == if evs.len() == 0 {
                is_open(st)
            } else {
                evs.last().event_type == NoteEventType::Started
            }
            &&& is_open(end) ==> tracked_name(end) == if evs.len() == 0 {
                tracked_name(st)
            } else {
                evs.last().note_name
            }
            &&& is_open(end) ==> tracked_midi(end) == if evs.len() == 0 {
                tracked_midi(st)
            } else {
                evs.last().midi
            }
            &&& orderly(end)
            &&& balanced(min_ms, end)
            &&& obs.len() > 0 ==> in_order(end, obs.last().timestamp_ms)
        }),
    decreases obs.len(),
{
    if obs.len() > 0 {
        let prefix = obs.drop_last();
        assert(times_in_order(st, prefix)) by {
            assert forall|i: int, j: int| 0 <= i < j < prefix.len() implies
                (#[trigger] prefix[i]).timestamp_ms <= (#[trigger] prefix[j]).timestamp_ms by {
                assert(prefix[i] == obs[i] && prefix[j] == obs[j]);
            }
            assert forall|i: int| 0 <= i < prefix.len() implies
                in_order(st, (#[trigger] prefix[i]).timestamp_ms) by {
                assert(prefix[i] == obs[i]);
            }
        }
        lemma_run_events_alternate(min_ms, hold_ms, transition, st, prefix);
        let (mid, evs) = run_segmenter(min_ms, hold_ms, transition, st, prefix);
        let o = obs.last();
        let n = obs.len() - 1;
        assert(o == obs[n]);
        if prefix.len() > 0 {
            assert(prefix.last() == obs[n - 1]);
            assert(obs[n - 1].timestamp_ms <= obs[n].timestamp_ms);
        } else {
            assert(in_order(st, obs[n].timestamp_ms));
        }
        assert(in_order(mid, o.timestamp_ms));
        lemma_segment_events_bracketed(
            min_ms,
            hold_ms,
            transition,
            mid,
            o.note,
            o.cents,
            o.clarity,
            o.voiced,
            o.timestamp_ms,
        );
        lemma_step_keeps_order(
            min_ms,
            hold_ms,
            transition,
            mid,
            o.note,
            o.cents,
            o.clarity,
            o.voiced,
            o.timestamp_ms,
            o.timestamp_ms,
        );
        let (next, more) = segment_step(
            min_ms,
            hold_ms,
            transition,
            mid,
            o.note,
            o.cents,
            o.clarity,
            o.voiced,
            o.timestamp_ms,
        );
        lemma_alternating_append(is_open(st), tracked_name(st), tracked_midi(st), evs, more);
        if more.len() == 0 {
            assert(evs + more =~= evs);
        } else {
            assert((evs + more).last() == more[0]);
        }
    }
}

/// Open status after `evs`, starting from `was_open`.
pub open spec fn open_after(was_open: bool, evs: Seq<NoteEventView>) -> bool {
    if evs.len() == 0 {
        was_open
    } else {
        evs.last().event_type == NoteEventType::Started
    }
}

/// MIDI number of the open note after `evs`, starting from `open_midi`.
pub open spec fn open_midi_after(open_midi: u8, evs: Seq<NoteEventView>) -> u8 {
    if evs.len() == 0 {
        open_midi
    } else {
        evs.last().midi
    }
}

/// Name of the open note after `evs`, starting from `open_name`.
pub open spec fn open_name_after(open_name: Seq<char>, evs: Seq<NoteEventView>) -> Seq<char> {
    if evs.len() == 0 {
        open_name
    } else {
        evs.last().note_name
    }
}

proof fn lemma_alternating_append(
    was_open: bool,
    open_name: Seq<char>,
    open_midi: u8,
    evs: Seq<NoteEventView>,
    more: Seq<NoteEventView>,
)
    requires
        alternating(was_open, open_name, open_midi, evs),
        more.len() <= 1,
        more.len() == 1 && more[0].event_type == NoteEventType::Started ==> !open_after(
            was_open,
            evs,
        ),
        more.len() == 1 && more[0].event_type == NoteEventType::Ended ==> open_after(was_open, evs)
            && more[0].note_name == open_name_after(open_name, evs)
            && more[0].midi == open_midi_after(open_midi, evs),
    ensures
        alternating(was_open, open_name, open_midi, evs + more),
{
    let all = evs + more;
    assert forall|i: int| 0 <= i < all.len() implies #[trigger] event_in_turn(
        was_open,
        open_name,
        open_midi,
        all,
        i,
    ) by {
        if i < evs.len() {
            assert(event_in_turn(was_open, open_name, open_midi, evs, i));
            assert(all[i] == evs[i]);
            if i > 0 {
                assert(all[i - 1] == evs[i - 1]);
            }
        } else {
            assert(all[i] == more[0]);
            if i > 0 {
                assert(all[i - 1] == evs.last());
            }
        }
    }
}

/// Number of voiced observations in `obs`.
pub open spec fn voiced_count(obs: Seq<Observation>) -> nat
    decreases obs.len(),
{
    if obs.len() == 0 {
        0
    } else {
        voiced_count(obs.drop_last()) + if obs.last().voiced {
            1nat
        } else {
            0nat
        }
    }
}

/// Sum of the deviations of the voiced observations in `obs`.
pub open spec fn voiced_cents_sum(obs: Seq<Observation>) -> int
    decreases obs.len(),
{
    if obs.len() == 0 {
        0
    } else {
        voiced_cents_sum(obs.drop_last()) + if obs.last().voiced {
            obs.last().cents as int
        } else {
            0
        }
    }
}

/// Sum of the clarities of the voiced observations in `obs`.
pub open spec fn voiced_clarity_sum(obs: Seq<Observation>) -> int
    decreases obs.len(),
{
    if obs.len() == 0 {
        0
    } else {
        voiced_clarity_sum(obs.drop_last()) + if obs.last().voiced {
            obs.last().clarity as int
        } else {
            0
        }
    }
}

/// Segment `d` began at observation `k` of `obs` and takes in the voiced
/// observations from there on: it carries `k`'s note and time, and the
/// deviation sum, clarity sum and count of the voiced observations from `k`
/// (and `k`'s MIDI number saturated to `u8`).
pub open spec fn tracks_from(d: NoteSegmentData, obs: Seq<Observation>, k: int) -> bool {
    &&& 0 <= k < obs.len()
    &&& obs[k].voiced
    &&& d.note == obs[k].note
    &&& d.midi == saturate_u8(obs[k].note as int)
    &&& d.start_timestamp_ms == obs[k].timestamp_ms
    &&& d.cents_sum == voiced_cents_sum(obs.skip(k))
    &&& d.clarity_sum == voiced_clarity_sum(obs.skip(k))
    &&& d.sample_count == voiced_count(obs.skip(k))
}

proof fn lemma_voiced_sums_bounded(obs: Seq<Observation>)
    ensures
        voiced_count(obs) <= obs.len(),
        sum_fits(voiced_cents_sum(obs), voiced_count(obs) as int),
        sum_fits(voiced_clarity_sum(obs), voiced_count(obs) as int),
    decreases obs.len(),
{
    if obs.len() > 0 {
        lemma_voiced_sums_bounded(obs.drop_last());
    }
}

proof fn lemma_voiced_count_from_voiced(obs: Seq<Observation>)
    requires
        obs.len() > 0,
        obs[0].voiced,
    ensures
        voiced_count(obs) >= 1,
    decreases obs.len(),
{
    if obs.len() > 1 {
        assert(obs.drop_last()[0] == obs[0]);
        lemma_voiced_count_from_voiced(obs.drop_last());
    }
}

/// Whatever a run from silence leaves tracked is the segment that its
/// latest note-starting observation began: the segment's note and start
/// time are that observation's, and its deviation and clarity sums and frame
/// count are those of the voiced observations since (so the means that its
/// events report are the means over those observations).
pub proof fn lemma_run_tracks_segment(
    min_ms: u64,
    hold_ms: u64,
    transition: i32,
    obs: Seq<Observation>,
)
    requires
        obs.len() < u32::MAX,
    ensures
        run_segmenter(min_ms, hold_ms, transition, SegmenterState::Silence, obs).0 matches
            SegmenterState::InNote(d) ==> exists|k: int| tracks_from(d, obs, k),
    decreases obs.len(),
{
    if obs.len() > 0 {
        let prefix = obs.drop_last();
        let o = obs.last();
        let n = obs.len() - 1;
        lemma_run_tracks_segment(min_ms, hold_ms, transition, prefix);
        let (mid, evs) = run_segmenter(min_ms, hold_ms, transition, SegmenterState::Silence, prefix);
        let (next, more) = segment_step(
            min_ms,
            hold_ms,
            transition,
            mid,
            o.note,
            o.cents,
            o.clarity,
            o.voiced,
            o.timestamp_ms,
        );
        assert(run_segmenter(min_ms, hold_ms, transition, SegmenterState::Silence, obs).0 == next);
        assert(o == obs[n]);
        let last_only = obs.skip(n);
        assert(last_only.drop_last() =~= Seq::<Observation>::empty());
        assert(last_only.last() == o);
        assert(voiced_count(last_only.drop_last()) == 0);
        assert(voiced_cents_sum(last_only.drop_last()) == 0);
        assert(voiced_clarity_sum(last_only.drop_last()) == 0);
        if o.voiced {
            assert(voiced_count(last_only) == 1);
            assert(voiced_cents_sum(last_only) == o.cents);
            assert(voiced_clarity_sum(last_only) == o.clarity);
        }
        if let SegmenterState::InNote(d) = mid {
            let k = choose|k: int| tracks_from(d, prefix, k);
            let tail = prefix.skip(k);
            assert(obs.skip(k).drop_last() =~= tail);
            assert(obs.skip(k).last() == o);
            assert(obs[k] == prefix[k]);
            lemma_voiced_sums_bounded(tail);
            if let SegmenterState::InNote(e) = next {
                if o.voiced && e.sample_count == d.sample_count + 1 && e.note == d.note
                    && e.start_timestamp_ms == d.start_timestamp_ms {
                    let c = voiced_count(tail) as int;
                    assert(c <= n);
                    assert(c * (i32::MIN as int) <= d.cents_sum <= c * (i32::MAX as int));
                    assert(c * (i32::MIN as int) <= d.clarity_sum <= c * (i32::MAX as int));
                    assert(c * (i32::MAX as int) <= (u32::MAX as int) * (i32::MAX as int)) by (nonlinear_arith)
                        requires
                            0 <= c <= u32::MAX,
                    ;
                    assert(c * (i32::MIN as int) >= (u32::MAX as int) * (i32::MIN as int)) by (nonlinear_arith)
                        requires
                            0 <= c <= u32::MAX,
                    ;
                }
                if tracks_from(e, obs, k) {
                } else {
                    assert(tracks_from(e, obs, n));
                }
            }
        } else {
            if let SegmenterState::InNote(e) = next {
                assert(tracks_from(e, obs, n));
            }
        }
    }
}

/// Event `e` describes the segment that began at observation `k` of `obs`
/// and takes in the voiced observations of `obs` from there on: it carries
/// `k`'s note (name and MIDI number) and the mean deviation and clarity of
/// those observations, rounded toward zero.
pub open spec fn describes_segment(e: NoteEventView, obs: Seq<Observation>, k: int) -> bool {
    &&& 0 <= k < obs.len()
    &&& obs[k].voiced
    &&& e.note_name == spec_note_name(obs[k].note as int)
    &&& e.midi == saturate_u8(obs[k].note as int)
    &&& e.cents_deviation == trunc_div(voiced_cents_sum(obs.skip(k)), voiced_count(obs.skip(k)) as int)
    &&& e.clarity == trunc_div(voiced_clarity_sum(obs.skip(k)), voiced_count(obs.skip(k)) as int)
}

/// An event reported anywhere in a run from silence describes its note: a
/// `Started` event for observation `o` describes the segment begun by an
/// earlier observation `k`, counting `o` itself, and comes at least
/// `min_ms` after `k`; an `Ended` event describes the segment that `o`
/// closes, up to the observation before `o`.
pub proof fn lemma_run_events_describe_segments(
    min_ms: u64,
    hold_ms: u64,
    transition: i32,
    obs: Seq<Observation>,
    o: Observation,
)
    requires
        obs.len() + 1 < u32::MAX,
    ensures
        ({
            let mid = run_segmenter(min_ms, hold_ms, transition, SegmenterState::Silence, obs).0;
            let more = segment_step(
                min_ms,
                hold_ms,
                transition,
                mid,
                o.note,
                o.cents,
                o.clarity,
                o.voiced,
                o.timestamp_ms,
            ).1;
            &&& more.len() <= 1
            &&& more.len() == 1 && more[0].event_type == NoteEventType::Started ==> exists|k: int|
                #![trigger obs[k]]
                0 <= k < obs.len() && describes_segment(more[0], obs.push(o), k)
                    && o.timestamp_ms - obs[k].timestamp_ms >= min_ms
            &&& more.len() == 1 && more[0].event_type == NoteEventType::Ended ==> exists|k: int|
                describes_segment(more[0], obs, k)
        }),
{
    let all = obs.push(o);
    let n = obs.len() as int;
    lemma_run_tracks_segment(min_ms, hold_ms, transition, obs);
    lemma_run_tracks_segment(min_ms, hold_ms, transition, all);
    assert(all.drop_last() =~= obs);
    assert(all.last() == o);
    let mid = run_segmenter(min_ms, hold_ms, transition, SegmenterState::Silence, obs).0;
    let (next, more) = segment_step(
        min_ms,
        hold_ms,
        transition,
        mid,
        o.note,
        o.cents,
        o.clarity,
        o.voiced,
        o.timestamp_ms,
    );
    assert(run_segmenter(min_ms, hold_ms, transition, SegmenterState::Silence, all).0 == next);
    if let SegmenterState::InNote(d) = mid {
        let k = choose|k: int| tracks_from(d, obs, k);
        assert(obs[k].voiced);
        lemma_voiced_sums_bounded(obs.skip(k));
        lemma_voiced_count_from_voiced(obs.skip(k));
        if more.len() == 1 && more[0].event_type == NoteEventType::Started {
            if let SegmenterState::InNote(e) = next {
                let j = choose|j: int| tracks_from(e, all, j);
                assert(e.sample_count == d.sample_count + 1);
                assert(j != n) by {
                    if j == n {
                        let last_only = all.skip(n);
                        assert(last_only.drop_last() =~= Seq::<Observation>::empty());
                        assert(last_only.last() == o);
                        assert(voiced_count(last_only.drop_last()) == 0);
                        assert(voiced_count(last_only) <= 1);
                    }
                }
                assert(all[j] == obs[j]);
                assert(describes_segment(more[0], all, j));
            }
        }
        if more.len() == 1 && more[0].event_type == NoteEventType::Ended {
            assert(describes_segment(more[0], obs, k));
        }
    }
}

/// A voiced observation joins the tracked segment exactly when it has the
/// segment's note name and its deviation lies within `transition` of the
/// segment's mean deviation (`cents_sum / sample_count`, compared without
/// rounding): the segment then grows by one frame and keeps its note and
/// start. Otherwise a new segment begins with this observation alone.
pub proof fn lemma_note_splits_by_distance_from_mean(
    min_ms: u64,
    hold_ms: u64,
    transition: i32,
    d: NoteSegmentData,
    note: i32,
    cents: i32,
    clarity: i32,
    ts: u64,
)
    requires
        data_wf(d),
        d.sample_count < u32::MAX,
    ensures
        ({
            let next = segment_step(
                min_ms,
                hold_ms,
                transition,
                SegmenterState::InNote(d),
                note,
                cents,
                clarity,
                true,
                ts,
            ).0;
            let count = d.sample_count as int;
            let offset = cents * count - d.cents_sum;
            let joins = spec_note_name(note as int) == spec_note_name(d.note as int)
                && -(transition * count) <= offset <= transition * count;
            &&& joins ==> (next matches SegmenterState::InNote(e) && e.sample_count == count + 1
                && e.start_timestamp_ms == d.start_timestamp_ms && e.note == d.note)
            &&& !joins ==> (next matches SegmenterState::InNote(e) && e.sample_count == 1
                && e.start_timestamp_ms == ts && e.note == note)
        }),
{
}

/// Closing a segment reports its length: every `Ended` event, whether a
/// step or a flush reports it, carries the closed segment's last frame time
/// minus its start time as its duration, and the closing time as its time.
pub proof fn lemma_ended_reports_segment_length(
    min_ms: u64,
    hold_ms: u64,
    transition: i32,
    d: NoteSegmentData,
    note: i32,
    cents: i32,
    clarity: i32,
    voiced: bool,
    ts: u64,
)
    requires
        d.start_timestamp_ms <= d.last_timestamp_ms,
    ensures
        ({
            let more = segment_step(
                min_ms,
                hold_ms,
                transition,
                SegmenterState::InNote(d),
                note,
                cents,
                clarity,
                voiced,
                ts,
            ).1;
            forall|i: int|
                0 <= i < more.len() && (#[trigger] more[i]).event_type == NoteEventType::Ended ==> {
                    &&& more[i].duration_ms == d.last_timestamp_ms - d.start_timestamp_ms
                    &&& more[i].timestamp_ms == ts
                }
        }),
        ({
            let closing = flush_events(min_ms, SegmenterState::InNote(d), ts);
            &&& closing.len() <= 1
            &&& forall|i: int|
                0 <= i < closing.len() ==> {
                    &&& (#[trigger] closing[i]).event_type == NoteEventType::Ended
                    &&& closing[i].duration_ms == d.last_timestamp_ms - d.start_timestamp_ms
                    &&& closing[i].timestamp_ms == ts
                }
        }),
{
}

/// From silence, only a voiced observation with positive clarity starts a
/// segment (of that one observation); nothing is reported either way.
pub proof fn lemma_silence_starts_on_clear_voice(
    min_ms: u64,
    hold_ms: u64,
    transition: i32,
    note: i32,
    cents: i32,
    clarity: i32,
    voiced: bool,
    ts: u64,
)
    ensures
        ({
            let (next, more) = segment_step(
                min_ms,
                hold_ms,
                transition,
                SegmenterState::Silence,
                note,
                cents,
                clarity,
                voiced,
                ts,
            );
            &&& more.len() == 0
            &&& voiced && clarity > 0 ==> (next matches SegmenterState::InNote(e) && e.note == note
                && e.sample_count == 1 && e.start_timestamp_ms == ts && e.last_timestamp_ms == ts
                && !e.confirmed)
            &&& !(voiced && clarity > 0) ==> next is Silence
        }),
{
}

/// An unvoiced observation during a segment: while the silence (counted from
/// its first unvoiced frame) is shorter than `hold_ms`, the segment is kept
/// as it was and nothing is reported; once it lasts `hold_ms`, the segment
/// closes, reporting an `Ended` event exactly when the note had been
/// confirmed and lasted at least `min_ms`.
pub proof fn lemma_silence_holds_then_closes(
    min_ms: u64,
    hold_ms: u64,
    transition: i32,
    d: NoteSegmentData,
    note: i32,
    cents: i32,
    clarity: i32,
    ts: u64,
)
    requires
        d.silence_start_ms matches Some(s) ==> s <= ts,
    ensures
        ({
            let (next, more) = segment_step(
                min_ms,
                hold_ms,
                transition,
                SegmenterState::InNote(d),
                note,
                cents,
                clarity,
                false,
                ts,
            );
            let silent_since: int = match d.silence_start_ms {
                Some(s) => s as int,
                None => ts as int,
            };
            &&& ts - silent_since < hold_ms ==> (next matches SegmenterState::InNote(e)
                && e.note == d.note && e.start_timestamp_ms == d.start_timestamp_ms
                && e.sample_count == d.sample_count && e.cents_sum == d.cents_sum
                && e.clarity_sum == d.clarity_sum && e.confirmed == d.confirmed
                && e.silence_start_ms == Some(silent_since as u64) && more.len() == 0)
            &&& ts - silent_since >= hold_ms ==> {
                &&& next is Silence
                &&& more.len() == (if d.confirmed && d.last_timestamp_ms - d.start_timestamp_ms >= min_ms {
                    1int
                } else {
                    0int
                })
            }
        }),
{
}

/// A voiced observation that joins the segment (see
/// [`lemma_note_splits_by_distance_from_mean`]) reports a `Started` event
/// exactly when the note was not yet confirmed and has now lasted at least
/// `min_ms`; that event is stamped now, has duration 0, and carries the
/// mean deviation and clarity (rounded toward zero) of the segment including
/// this observation. A voiced observation that starts a new note reports an
/// `Ended` event for the old one exactly when it had been confirmed and
/// lasted at least `min_ms`.
pub proof fn lemma_voiced_step_events(
    min_ms: u64,
    hold_ms: u64,
    transition: i32,
    d: NoteSegmentData,
    note: i32,
    cents: i32,
    clarity: i32,
    ts: u64,
)
    requires
        data_wf(d),
        d.sample_count < u32::MAX,
        d.start_timestamp_ms <= ts,
    ensures
        ({
            let (next, more) = segment_step(
                min_ms,
                hold_ms,
                transition,
                SegmenterState::InNote(d),
                note,
                cents,
                clarity,
                true,
                ts,
            );
            let count = d.sample_count as int;
            let offset = cents * count - d.cents_sum;
            let joins = spec_note_name(note as int) == spec_note_name(d.note as int)
                && -(transition * count) <= offset <= transition * count;
            &&& joins ==> {
                &&& more.len() == (if !d.confirmed && ts - d.start_timestamp_ms >= min_ms {
                    1int
                } else {
                    0int
                })
                &&& more.len() == 1 ==> {
                    &&& more[0].event_type == NoteEventType::Started
                    &&& more[0].timestamp_ms == ts
                    &&& more[0].duration_ms == 0
                    &&& more[0].note_name == spec_note_name(d.note as int)
                    &&& more[0].cents_deviation == trunc_div(d.cents_sum + cents, count + 1)
                    &&& more[0].clarity == trunc_div(d.clarity_sum + clarity, count + 1)
                }
            }
            &&& !joins ==> more.len() == (if d.confirmed && d.last_timestamp_ms - d.start_timestamp_ms
                >= min_ms {
                1int
            } else {
                0int
            })
        }),
{
    let count = d.sample_count as int;
    assert(count * (i32::MAX as int) <= (u32::MAX as int) * (i32::MAX as int)) by (nonlinear_arith)
        requires
            0 <= count <= u32::MAX,
    ;
    assert(count * (i32::MIN as int) >= (u32::MAX as int) * (i32::MIN as int)) by (nonlinear_arith)
        requires
            0 <= count <= u32::MAX,
    ;
}

} // verus!
