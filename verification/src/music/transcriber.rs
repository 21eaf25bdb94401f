//! Segmentation of a stream of pitch observations into notes.
//!
//! Quantities that the audio front end measures as real numbers enter this
//! module as integers in fixed units: deviations from the equal-tempered
//! pitch in thousandths of a cent, and detector clarity in millionths.
use vstd::prelude::*;
use crate::music::note::{midi_to_note_name, spec_note_name, note_key, lemma_note_name_injective};

verus! {

/// Whether a note event opens or closes a note.
#[derive(Clone, Copy, Debug, PartialEq, Eq, Structural)]
pub enum NoteEventType {
    Started,
    Ended,
}

/// Lower-case name of an event type, as written to note logs.
pub open spec fn event_type_label(t: NoteEventType) -> Seq<char> {
    match t {
        NoteEventType::Started => seq!['s', 't', 'a', 'r', 't', 'e', 'd'],
        NoteEventType::Ended => seq!['e', 'n', 'd', 'e', 'd'],
    }
}

impl NoteEventType {
    /// "started" or "ended".
    pub fn label(&self) -> (s: &'static str)
        ensures
            s@ == event_type_label(*self),
    {
        proof {
            reveal_strlit("started");
            reveal_strlit("ended");
        }
        match self {
            NoteEventType::Started => "started",
            NoteEventType::Ended => "ended",
        }
    }
}

/// A transcribed note boundary.
#[derive(Clone, Debug)]
pub struct NoteEvent {
    pub event_type: NoteEventType,
    pub note_name: String,
    pub midi: u8,
    /// Mean deviation from the equal-tempered pitch, in thousandths of a cent.
    pub cents_deviation: i32,
    /// Mean detector clarity, in millionths.
    pub clarity: i32,
    pub duration_ms: u64,
    pub timestamp_ms: u64,
}

/// Mathematical view of a [`NoteEvent`].
pub struct NoteEventView {
    pub event_type: NoteEventType,
    pub note_name: Seq<char>,
    pub midi: u8,
    pub cents_deviation: int,
    pub clarity: int,
    pub duration_ms: u64,
    pub timestamp_ms: u64,
}

impl View for NoteEvent {
    type V = NoteEventView;

    open spec fn view(&self) -> NoteEventView {
        NoteEventView {
            event_type: self.event_type,
            note_name: self.note_name@,
            midi: self.midi,
            cents_deviation: self.cents_deviation as int,
            clarity: self.clarity as int,
            duration_ms: self.duration_ms,
            timestamp_ms: self.timestamp_ms,
        }
    }
}

/// The note currently being tracked.
#[derive(Clone, Copy, Debug)]
pub struct NoteSegmentData {
    /// Rounded MIDI number the segment's name is taken from.
    pub note: i32,
    /// The same number saturated to `0..=255`.
    pub midi: u8,
    pub cents_sum: i64,
    pub clarity_sum: i64,
    pub sample_count: u32,
    pub start_timestamp_ms: u64,
    pub last_timestamp_ms: u64,
    pub confirmed: bool,
    pub silence_start_ms: Option<u64>,
}

/// Phase of the segmenter.
#[derive(Clone, Copy, Debug)]
pub enum SegmenterState {
    Silence,
    InNote(NoteSegmentData),
}

/// `x` saturated to the range of `u8`.
pub open spec fn saturate_u8(x: int) -> u8 {
    if x < 0 {
        0
    } else if x > 255 {
        255
    } else {
        x as u8
    }
}

/// Integer quotient rounded toward zero (`b > 0`).
pub open spec fn trunc_div(a: int, b: int) -> int {
    if a >= 0 {
        a / b
    } else {
        -((-a) / b)
    }
}

/// Absolute value.
pub open spec fn abs_int(x: int) -> int {
    if x < 0 {
        -x
    } else {
        x
    }
}

/// Sums of `count` values of type `i32` stay in range.
pub open spec fn sum_fits(sum: int, count: int) -> bool {
    count * (i32::MIN as int) <= sum <= count * (i32::MAX as int)
}

/// Internal consistency of a tracked segment.
pub open spec fn data_wf(d: NoteSegmentData) -> bool {
    &&& d.sample_count >= 1
    &&& sum_fits(d.cents_sum as int, d.sample_count as int)
    &&& sum_fits(d.clarity_sum as int, d.sample_count as int)
    &&& d.midi == saturate_u8(d.note as int)
}

/// Internal consistency of a segmenter phase.
pub open spec fn state_wf(s: SegmenterState) -> bool {
    match s {
        SegmenterState::Silence => true,
        SegmenterState::InNote(d) => data_wf(d),
    }
}

/// A segment that starts with one observation.
pub open spec fn fresh_segment(note: i32, cents: i32, clarity: i32, ts: u64) -> NoteSegmentData {
    NoteSegmentData {
        note,
        midi: saturate_u8(note as int),
        cents_sum: cents as i64,
        clarity_sum: clarity as i64,
        sample_count: 1,
        start_timestamp_ms: ts,
        last_timestamp_ms: ts,
        confirmed: false,
        silence_start_ms: None,
    }
}

/// The event describing segment `d`.
pub open spec fn segment_event(
    kind: NoteEventType,
    d: NoteSegmentData,
    duration_ms: u64,
    ts: u64,
) -> NoteEventView {
    NoteEventView {
        event_type: kind,
        note_name: spec_note_name(d.note as int),
        midi: d.midi,
        cents_deviation: trunc_div(d.cents_sum as int, d.sample_count as int),
        clarity: trunc_div(d.clarity_sum as int, d.sample_count as int),
        duration_ms,
        timestamp_ms: ts,
    }
}

/// Length of segment `d` in milliseconds.
pub open spec fn segment_duration(d: NoteSegmentData) -> int {
    d.last_timestamp_ms - d.start_timestamp_ms
}

/// A voiced observation starts a new note: its name differs from the
/// segment's, or its deviation is more than `transition` away from the
/// segment's mean deviation.
pub open spec fn is_new_note(d: NoteSegmentData, note: i32, cents: i32, transition: i32) -> bool {
    ||| spec_note_name(note as int) != spec_note_name(d.note as int)
    ||| abs_int(cents * d.sample_count - d.cents_sum) > transition * d.sample_count
}

/// What closing segment `d` at `ts` reports: an `Ended` event when the note
/// was confirmed and lasted at least `min_ms`.
pub open spec fn finalize_events(min_ms: u64, d: NoteSegmentData, ts: u64) -> Seq<NoteEventView> {
    if d.confirmed && segment_duration(d) >= min_ms {
        seq![segment_event(NoteEventType::Ended, d, segment_duration(d) as u64, ts)]
    } else {
        seq![]
    }
}

/// Where a silence that started at `d.silence_start_ms` (or now) began.
pub open spec fn silence_start_of(d: NoteSegmentData, ts: u64) -> u64 {
    match d.silence_start_ms {
        Some(s) => s,
        None => ts,
    }
}

/// The observations on which one segmentation step does its arithmetic
/// without going below zero or past the sample counter's range.
pub open spec fn step_accepts(
    hold_ms: u64,
    transition: i32,
    st: SegmenterState,
    note: i32,
    cents: i32,
    voiced: bool,
    ts: u64,
) -> bool {
    match st {
        SegmenterState::Silence => true,
        SegmenterState::InNote(d) => if !voiced {
            let s = silence_start_of(d, ts);
            &&& ts >= s
            &&& ts - s >= hold_ms ==> d.last_timestamp_ms >= d.start_timestamp_ms
        } else if is_new_note(d, note, cents, transition) {
            d.last_timestamp_ms >= d.start_timestamp_ms
        } else {
            &&& d.sample_count < u32::MAX
            &&& !d.confirmed ==> ts >= d.start_timestamp_ms
        },
    }
}

/// One segmentation step: the next phase and the events reported for an
/// observation of note `note` with deviation `cents`, clarity `clarity`,
/// voicing `voiced` at time `ts`.
pub open spec fn segment_step(
    min_ms: u64,
    hold_ms: u64,
    transition: i32,
    st: SegmenterState,
    note: i32,
    cents: i32,
    clarity: i32,
    voiced: bool,
    ts: u64,
) -> (SegmenterState, Seq<NoteEventView>) {
    match st {
        SegmenterState::Silence => if !voiced || clarity <= 0 {
            (SegmenterState::Silence, seq![])
        } else {
            (SegmenterState::InNote(fresh_segment(note, cents, clarity, ts)), seq![])
        },
        SegmenterState::InNote(d) => if !voiced {
            let s = silence_start_of(d, ts);
            if ts - s >= hold_ms {
                (SegmenterState::Silence, finalize_events(min_ms, d, ts))
            } else {
                (
                    SegmenterState::InNote(
                        NoteSegmentData { last_timestamp_ms: ts, silence_start_ms: Some(s), ..d },
                    ),
                    seq![],
                )
            }
        } else if is_new_note(d, note, cents, transition) {
            if d.confirmed && segment_duration(d) >= min_ms {
                (
                    SegmenterState::InNote(fresh_segment(note, cents, clarity, ts)),
                    seq![segment_event(NoteEventType::Ended, d, segment_duration(d) as u64, ts)],
                )
            } else {
                (
                    SegmenterState::InNote(
                        NoteSegmentData {
                            confirmed: d.confirmed,
                            ..fresh_segment(note, cents, clarity, ts)
                        },
                    ),
                    seq![],
                )
            }
        } else {
            let grown = NoteSegmentData {
                cents_sum: (d.cents_sum + cents) as i64,
                clarity_sum: (d.clarity_sum + clarity) as i64,
                sample_count: (d.sample_count + 1) as u32,
                last_timestamp_ms: ts,
                silence_start_ms: None,
                ..d
            };
            if !d.confirmed && ts - d.start_timestamp_ms >= min_ms {
                (
                    SegmenterState::InNote(NoteSegmentData { confirmed: true, ..grown }),
                    seq![segment_event(NoteEventType::Started, grown, 0, ts)],
                )
            } else {
                (SegmenterState::InNote(grown), seq![])
            }
        },
    }
}

/// What closing the current phase at `ts` reports.
pub open spec fn flush_events(min_ms: u64, st: SegmenterState, ts: u64) -> Seq<NoteEventView> {
    match st {
        SegmenterState::Silence => seq![],
        SegmenterState::InNote(d) => finalize_events(min_ms, d, ts),
    }
}

/// Closing the current phase at any time does its arithmetic in range.
pub open spec fn flush_accepts(st: SegmenterState) -> bool {
    match st {
        SegmenterState::Silence => true,
        SegmenterState::InNote(d) => d.last_timestamp_ms >= d.start_timestamp_ms,
    }
}

/// Turns per-frame pitch observations into `Started`/`Ended` note events.
pub struct NoteSegmenter {
    /// A note is reported once it has lasted this long.
    pub min_note_duration_ms: u64,
    /// Unvoiced time tolerated inside a note before it ends.
    pub hold_silence_ms: u64,
    /// Deviation from a note's mean, in thousandths of a cent, beyond which
    /// a voiced frame starts a new note.
    pub note_transition_millicents: i32,
    state: SegmenterState,
}

fn saturate_midi(note: i32) -> (m: u8)
    ensures
        m == saturate_u8(note as int),
{
    if note < 0 {
        0
    } else if note > 255 {
        255
    } else {
        note as u8
    }
}

fn note_identity(note: i32) -> (k: i32)
    ensures
        k == note_key(note as int),
{
    if note < 0 || note > 127 {
        -1
    } else {
        note
    }
}

proof fn lemma_mean_fits(sum: int, count: int)
    requires
        count >= 1,
        sum_fits(sum, count),
    ensures
        i32::MIN <= trunc_div(sum, count) <= i32::MAX,
{
    if sum >= 0 {
        assert(sum / count <= i32::MAX) by (nonlinear_arith)
            requires
                count >= 1,
                0 <= sum <= count * (i32::MAX as int),
        ;
        assert(sum / count >= 0) by (nonlinear_arith)
            requires
                count >= 1,
                0 <= sum,
        ;
    } else {
        assert((-sum) / count <= -(i32::MIN as int)) by (nonlinear_arith)
            requires
                count >= 1,
                0 <= -sum <= count * (-(i32::MIN as int)),
        ;
        assert((-sum) / count >= 0) by (nonlinear_arith)
            requires
                count >= 1,
                0 <= -sum,
        ;
    }
}

/// Mean of `count` values summing to `sum`, rounded toward zero.
fn mean(sum: i64, count: u32) -> (m: i32)
    requires
        count >= 1,
        sum_fits(sum as int, count as int),
    ensures
        m as int == trunc_div(sum as int, count as int),
{
    proof {
        lemma_mean_fits(sum as int, count as int);
    }
    if sum >= 0 {
        (sum / (count as i64)) as i32
    } else {
        let q = (-sum) / (count as i64);
        (-q) as i32
    }
}

fn segment_event_of(kind: NoteEventType, d: &NoteSegmentData, duration_ms: u64, ts: u64) -> (e: NoteEvent)
    requires
        data_wf(*d),
    ensures
        e@ == segment_event(kind, *d, duration_ms, ts),
{
    NoteEvent {
        event_type: kind,
        note_name: midi_to_note_name(d.note),
        midi: d.midi,
        cents_deviation: mean(d.cents_sum, d.sample_count),
        clarity: mean(d.clarity_sum, d.sample_count),
        duration_ms,
        timestamp_ms: ts,
    }
}

fn single_event(e: NoteEvent) -> (v: Vec<NoteEvent>)
    ensures
        v@.map_values(|x: NoteEvent| x@) == seq![e@],
{
    let mut v = Vec::new();
    v.push(e);
    assert(v@.map_values(|x: NoteEvent| x@) =~= seq![e@]);
    v
}

fn no_events() -> (v: Vec<NoteEvent>)
    ensures
        v@.map_values(|x: NoteEvent| x@) == Seq::<NoteEventView>::empty(),
{
    let v = Vec::new();
    assert(v@.map_values(|x: NoteEvent| x@) =~= Seq::<NoteEventView>::empty());
    v
}

fn new_note_test(d: &NoteSegmentData, note: i32, cents: i32, transition: i32) -> (b: bool)
    requires
        data_wf(*d),
    ensures
        b == is_new_note(*d, note, cents, transition),
{
    proof {
        lemma_note_name_injective(note as int, d.note as int);
    }
    if note_identity(note) != note_identity(d.note) {
        return true;
    }
    let count = d.sample_count as i128;
    assert((cents as int) * (count as int) <= 0x1_0000_0000_0000_0000int) by (nonlinear_arith)
        requires
            i32::MIN <= cents <= i32::MAX,
            0 <= count <= u32::MAX,
    ;
    assert((cents as int) * (count as int) >= -0x1_0000_0000_0000_0000int) by (nonlinear_arith)
        requires
            i32::MIN <= cents <= i32::MAX,
            0 <= count <= u32::MAX,
    ;
    assert((transition as int) * (count as int) <= 0x1_0000_0000_0000_0000int) by (nonlinear_arith)
        requires
            i32::MIN <= transition <= i32::MAX,
            0 <= count <= u32::MAX,
    ;
    assert((transition as int) * (count as int) >= -0x1_0000_0000_0000_0000int) by (nonlinear_arith)
        requires
            i32::MIN <= transition <= i32::MAX,
            0 <= count <= u32::MAX,
    ;
    let diff = (cents as i128) * count - (d.cents_sum as i128);
    let dist = if diff < 0 {
        -diff
    } else {
        diff
    };
    dist > (transition as i128) * count
}

impl NoteSegmenter {
    /// The phase the segmenter is in.
    pub closed spec fn phase(&self) -> SegmenterState {
        self.state
    }

    /// Minimum reported note length.
    pub closed spec fn min_duration(&self) -> u64 {
        self.min_note_duration_ms
    }

    /// Tolerated unvoiced gap.
    pub closed spec fn hold_silence(&self) -> u64 {
        self.hold_silence_ms
    }

    /// Deviation that splits notes, in thousandths of a cent.
    pub closed spec fn transition(&self) -> i32 {
        self.note_transition_millicents
    }

    /// The segmenter's phase is internally consistent.
    pub open spec fn wf(&self) -> bool {
        state_wf(self.phase())
    }

    /// A segmenter in silence that reports notes of at least 120 ms,
    /// tolerates 80 ms gaps and splits notes 40 cents apart.
    pub fn new() -> (s: Self)
        ensures
            s.min_duration() == 120,
            s.hold_silence() == 80,
            s.transition() == 40_000,
            s.phase() == SegmenterState::Silence,
            s.wf(),
    {
        NoteSegmenter {
            min_note_duration_ms: 120,
            hold_silence_ms: 80,
            note_transition_millicents: 40_000,
            state: SegmenterState::Silence,
        }
    }

    /// A segmenter in silence with the given minimum note length, tolerated
    /// gap, and splitting deviation (thousandths of a cent).
    pub fn with_settings(min_note_duration_ms: u64, hold_silence_ms: u64, note_transition_millicents: i32) -> (s: Self)
        ensures
            s.min_duration() == min_note_duration_ms,
            s.hold_silence() == hold_silence_ms,
            s.transition() == note_transition_millicents,
            s.phase() == SegmenterState::Silence,
            s.wf(),
    {
        NoteSegmenter {
            min_note_duration_ms,
            hold_silence_ms,
            note_transition_millicents,
            state: SegmenterState::Silence,
        }
    }

    /// Sets the minimum reported note length; the phase is kept.
    pub fn set_min_note_duration_ms(&mut self, min_note_duration_ms: u64)
        ensures
            final(self).min_duration() == min_note_duration_ms,
            final(self).hold_silence() == old(self).hold_silence(),
            final(self).transition() == old(self).transition(),
            final(self).phase() == old(self).phase(),
    {
        self.min_note_duration_ms = min_note_duration_ms;
    }

    /// Sets the tolerated unvoiced gap; the phase is kept.
    pub fn set_hold_silence_ms(&mut self, hold_silence_ms: u64)
        ensures
            final(self).min_duration() == old(self).min_duration(),
            final(self).hold_silence() == hold_silence_ms,
            final(self).transition() == old(self).transition(),
            final(self).phase() == old(self).phase(),
    {
        self.hold_silence_ms = hold_silence_ms;
    }

    /// Sets the splitting deviation (thousandths of a cent); the phase is
    /// kept.
    pub fn set_note_transition_millicents(&mut self, note_transition_millicents: i32)
        ensures
            final(self).min_duration() == old(self).min_duration(),
            final(self).hold_silence() == old(self).hold_silence(),
            final(self).transition() == note_transition_millicents,
            final(self).phase() == old(self).phase(),
    {
        self.note_transition_millicents = note_transition_millicents;
    }

    /// Feeds one observation: the rounded MIDI note `note`, its deviation
    /// from the equal-tempered pitch `cents` (thousandths of a cent), the
    /// detector's `clarity` (millionths), whether the frame is `voiced`, and
    /// its time. Returns the note events this observation completes.
    pub fn process(&mut self, note: i32, cents: i32, clarity: i32, voiced: bool, timestamp_ms: u64) -> (events: Vec<NoteEvent>)
        requires
            old(self).wf(),
            step_accepts(
                old(self).hold_silence(),
                old(self).transition(),
                old(self).phase(),
                note,
                cents,
                voiced,
                timestamp_ms,
            ),
        ensures
            final(self).wf(),
            final(self).min_duration() == old(self).min_duration(),
            final(self).hold_silence() == old(self).hold_silence(),
            final(self).transition() == old(self).transition(),
            ({
                let (next, evs) = segment_step(
                    old(self).min_duration(),
                    old(self).hold_silence(),
                    old(self).transition(),
                    old(self).phase(),
                    note,
                    cents,
                    clarity,
                    voiced,
                    timestamp_ms,
                );
                &&& final(self).phase() == next
                &&& events@.map_values(|e: NoteEvent| e@) == evs
            }),
    {
        let current = self.state;
        match current {
            SegmenterState::Silence => {
                if !voiced || clarity <= 0 {
                    return no_events();
                }
                self.state = SegmenterState::InNote(NoteSegmentData {
                    note,
                    midi: saturate_midi(note),
                    cents_sum: cents as i64,
                    clarity_sum: clarity as i64,
                    sample_count: 1,
                    start_timestamp_ms: timestamp_ms,
                    last_timestamp_ms: timestamp_ms,
                    confirmed: false,
                    silence_start_ms: None,
                });
                no_events()
            },
            SegmenterState::InNote(mut data) => {
                if !voiced {
                    let silence_start = match data.silence_start_ms {
                        Some(s) => s,
                        None => timestamp_ms,
                    };
                    let silence_elapsed = timestamp_ms - silence_start;
                    if silence_elapsed >= self.hold_silence_ms {
                        self.state = SegmenterState::Silence;
                        return self.finalize_impl(&data, timestamp_ms);
                    }
                    data.last_timestamp_ms = timestamp_ms;
                    data.silence_start_ms = Some(silence_start);
                    self.state = SegmenterState::InNote(data);
                    return no_events();
                }
                data.silence_start_ms = None;
                if new_note_test(&data, note, cents, self.note_transition_millicents) {
                    let duration = data.last_timestamp_ms - data.start_timestamp_ms;
                    if data.confirmed && duration >= self.min_note_duration_ms {
                        let ended = segment_event_of(NoteEventType::Ended, &data, duration, timestamp_ms);
                        data.note = note;
                        data.midi = saturate_midi(note);
                        data.cents_sum = cents as i64;
                        data.clarity_sum = clarity as i64;
                        data.sample_count = 1;
                        data.start_timestamp_ms = timestamp_ms;
                        data.last_timestamp_ms = timestamp_ms;
                        data.confirmed = false;
                        data.silence_start_ms = None;
                        self.state = SegmenterState::InNote(data);
                        single_event(ended)
                    } else {
                        data.note = note;
                        data.midi = saturate_midi(note);
                        data.cents_sum = cents as i64;
                        data.clarity_sum = clarity as i64;
                        data.sample_count = 1;
                        data.start_timestamp_ms = timestamp_ms;
                        data.last_timestamp_ms = timestamp_ms;
                        data.silence_start_ms = None;
                        self.state = SegmenterState::InNote(data);
                        no_events()
                    }
                } else {
                    assert(data.sample_count as int * (i32::MIN as int) + (i32::MIN as int)
                        == (data.sample_count as int + 1) * (i32::MIN as int)) by (nonlinear_arith);
                    assert(data.sample_count as int * (i32::MAX as int) + (i32::MAX as int)
                        == (data.sample_count as int + 1) * (i32::MAX as int)) by (nonlinear_arith);
                    assert((data.sample_count as int + 1) * (i32::MAX as int) < 0x8000_0000_0000_0000int) by (nonlinear_arith)
                        requires
                            data.sample_count < u32::MAX,
                    ;
                    assert((data.sample_count as int + 1) * (i32::MIN as int) >= -0x8000_0000_0000_0000int) by (nonlinear_arith)
                        requires
                            data.sample_count < u32::MAX,
                    ;
                    data.cents_sum = data.cents_sum + cents as i64;
                    data.clarity_sum = data.clarity_sum + clarity as i64;
                    data.sample_count = data.sample_count + 1;
                    data.last_timestamp_ms = timestamp_ms;
                    let mut events = no_events();
                    if !data.confirmed {
                        let duration = data.last_timestamp_ms - data.start_timestamp_ms;
                        if duration >= self.min_note_duration_ms {
                            data.confirmed = true;
                            events = single_event(segment_event_of(NoteEventType::Started, &data, 0, timestamp_ms));
                        }
                    }
                    self.state = SegmenterState::InNote(data);
                    events
                }
            },
        }
    }

    fn finalize_impl(&self, data: &NoteSegmentData, timestamp_ms: u64) -> (events: Vec<NoteEvent>)
        requires
            data_wf(*data),
            data.last_timestamp_ms >= data.start_timestamp_ms,
        ensures
            events@.map_values(|e: NoteEvent| e@) == finalize_events(self.min_duration(), *data, timestamp_ms),
    {
        let duration = data.last_timestamp_ms - data.start_timestamp_ms;
        if data.confirmed && duration >= self.min_note_duration_ms {
            single_event(segment_event_of(NoteEventType::Ended, data, duration, timestamp_ms))
        } else {
            no_events()
        }
    }

    /// Whether [`Self::process`] can take this observation: its time must not
    /// run back before the tracked note's start or pending silence, and the
    /// note's frame counter must have room.
    pub fn accepts(&self, note: i32, cents: i32, voiced: bool, timestamp_ms: u64) -> (b: bool)
        requires
            self.wf(),
        ensures
            b == step_accepts(self.hold_silence(), self.transition(), self.phase(), note, cents, voiced, timestamp_ms),
    {
        match &self.state {
            SegmenterState::Silence => true,
            SegmenterState::InNote(d) => {
                if !voiced {
                    let s = match d.silence_start_ms {
                        Some(s) => s,
                        None => timestamp_ms,
                    };
                    timestamp_ms >= s && (timestamp_ms - s < self.hold_silence_ms
                        || d.last_timestamp_ms >= d.start_timestamp_ms)
                } else if new_note_test(d, note, cents, self.note_transition_millicents) {
                    d.last_timestamp_ms >= d.start_timestamp_ms
                } else {
                    d.sample_count < u32::MAX && (d.confirmed || timestamp_ms >= d.start_timestamp_ms)
                }
            },
        }
    }

    /// Whether [`Self::flush`] can close the current phase: the tracked
    /// note's times are in order.
    pub fn can_flush(&self) -> (b: bool)
        ensures
            b == flush_accepts(self.phase()),
    {
        match &self.state {
            SegmenterState::Silence => true,
            SegmenterState::InNote(d) => d.last_timestamp_ms >= d.start_timestamp_ms,
        }
    }

    /// Ends the current note at `timestamp_ms`, reporting it if it was
    /// confirmed and long enough, and returns to silence.
    pub fn flush(&mut self, timestamp_ms: u64) -> (events: Vec<NoteEvent>)
        requires
            old(self).wf(),
            flush_accepts(old(self).phase()),
        ensures
            final(self).wf(),
            final(self).phase() == SegmenterState::Silence,
            final(self).min_duration() == old(self).min_duration(),
            final(self).hold_silence() == old(self).hold_silence(),
            final(self).transition() == old(self).transition(),
            events@.map_values(|e: NoteEvent| e@) == flush_events(
                old(self).min_duration(),
                old(self).phase(),
                timestamp_ms,
            ),
    {
        let current = self.state;
        self.state = SegmenterState::Silence;
        match current {
            SegmenterState::InNote(data) => self.finalize_impl(&data, timestamp_ms),
            SegmenterState::Silence => no_events(),
        }
    }

    /// Forgets the current note without reporting it.
    pub fn reset(&mut self)
        ensures
            final(self).wf(),
            final(self).phase() == SegmenterState::Silence,
            final(self).min_duration() == old(self).min_duration(),
            final(self).hold_silence() == old(self).hold_silence(),
            final(self).transition() == old(self).transition(),
    {
        self.state = SegmenterState::Silence;
    }
}

impl Default for NoteSegmenter {
    fn default() -> (s: Self)
        ensures
            s.min_duration() == 120,
            s.hold_silence() == 80,
            s.transition() == 40_000,
            s.phase() == SegmenterState::Silence,
            s.wf(),
    {
        Self::new()
    }
}

} // verus!
