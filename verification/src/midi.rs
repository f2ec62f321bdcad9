use vstd::prelude::*;
use vstd::arithmetic::div_mod::lemma_div_is_ordered;
use vstd::arithmetic::mul::lemma_mul_inequality;

verus! {

/// Tempo that applies before the first tempo change: 120 BPM.
pub const DEFAULT_MICROS_PER_BEAT: u32 = 500_000;

#[derive(Clone, Copy, Debug, PartialEq, Eq)]
pub struct TempoChange {
    pub at_tick: u64,
    pub micros_per_beat: u32,
}

#[derive(Clone, Debug, PartialEq, Eq)]
pub struct TrackInfo {
    pub index: usize,
    pub name: Option<String>,
}

#[derive(Clone, Copy, Debug, PartialEq, Eq)]
pub enum EventKind {
    NoteOn { note: u8, velocity: u8 },
    NoteOff { note: u8 },
}

#[derive(Clone, Copy, Debug, PartialEq, Eq)]
pub struct TimedEvent {
    pub tick: u64,
    pub track: usize,
    pub channel: u8,
    pub kind: EventKind,
}

/// A fully resolved note with start and end time.
#[derive(Clone, Copy, Debug, PartialEq, Eq)]
pub struct Note {
    pub start_tick: u64,
    pub end_tick: u64,
    pub midi_note: u8,
    pub track: usize,
    pub channel: u8,
    pub velocity: u8,
}

/// A chord-sized group of notes the user must play in practice mode.
#[derive(Clone, Debug, PartialEq, Eq)]
pub struct PlayEvent {
    pub tick: u64,
    /// Raw MIDI notes (before octave offset).
    pub notes: Vec<u8>,
    /// Ticks until the next group of notes starts (whether or not that group
    /// makes a play event), or 480 after the last group.
    pub duration: u64,
}

#[derive(Debug)]
pub struct MidiFile {
    pub ticks_per_beat: u16,
    pub tempo_map: Vec<TempoChange>,
    /// Numerator, denominator.
    pub time_sig: (u8, u8),
    /// -7..+7, negative = flats, positive = sharps.
    pub key_sig: i8,
    pub tracks: Vec<TrackInfo>,
    pub events: Vec<TimedEvent>,
    pub notes: Vec<Note>,
    pub total_ticks: u64,
}

impl Clone for MidiFile {
    fn clone(&self) -> Self {
        MidiFile {
            ticks_per_beat: self.ticks_per_beat,
            tempo_map: self.tempo_map.clone(),
            time_sig: self.time_sig,
            key_sig: self.key_sig,
            tracks: self.tracks.clone(),
            events: self.events.clone(),
            notes: self.notes.clone(),
            total_ticks: self.total_ticks,
        }
    }
}

impl MidiFile {
    /// The file's clock can be read at every tick of the song: a nonzero
    /// resolution, tempo changes in tick order, and a tick-to-time walk that
    /// stays within `u64` up to the last tick.
    pub open spec fn clock_ok(&self) -> bool {
        &&& self.ticks_per_beat > 0
        &&& tempo_sorted(self.tempo_map@)
        &&& micros_fit(self.tempo_map@, self.total_ticks as int, self.ticks_per_beat as int)
    }

    /// Absolute time of `tick` in this file.
    pub open spec fn micros_at_tick(&self, tick: int) -> int {
        micros_at(self.tempo_map@, tick, self.ticks_per_beat as int)
    }
}

// ---------------------------------------------------------------------------
// Tick -> microsecond clock
// ---------------------------------------------------------------------------

/// Index of the first tempo change at or after `tick`, searching from `i`;
/// the length of the map when there is none.
pub open spec fn first_reaching(map: Seq<TempoChange>, tick: int, i: int) -> int
    decreases map.len() - i,
{
    if i >= map.len() || i < 0 {
        map.len() as int
    } else if map[i].at_tick >= tick {
        i
    } else {
        first_reaching(map, tick, i + 1)
    }
}

/// Start tick of the tempo segment that tempo change `j` closes.
pub open spec fn segment_start(map: Seq<TempoChange>, j: int) -> int {
    if j == 0 { 0 } else { map[j - 1].at_tick as int }
}

/// Microseconds per beat in force within the segment that tempo change `j` closes.
pub open spec fn segment_tempo(map: Seq<TempoChange>, j: int) -> int {
    if j == 0 { DEFAULT_MICROS_PER_BEAT as int } else { map[j - 1].micros_per_beat as int }
}

/// Duration in microseconds (rounded down) of `ticks` ticks at `mpb` microseconds per beat.
pub open spec fn span_micros(ticks: int, mpb: int, tpb: int) -> int {
    ticks * mpb / tpb
}

/// Time of the tempo changes before index `j`: the sum of the (individually
/// rounded) durations of the segments they close.
pub open spec fn micros_before(map: Seq<TempoChange>, j: int, tpb: int) -> int
    decreases j,
{
    if j <= 0 {
        0
    } else {
        micros_before(map, j - 1, tpb) + span_micros(
            map[j - 1].at_tick - segment_start(map, j - 1),
            segment_tempo(map, j - 1),
            tpb,
        )
    }
}

/// Absolute time in microseconds of `tick`: the tempo changes before the first
/// one at or after `tick` are walked in order, then the rest is timed at the
/// tempo in force.
#[verifier::opaque]
pub open spec fn micros_at(map: Seq<TempoChange>, tick: int, tpb: int) -> int {
    let n = first_reaching(map, tick, 0);
    micros_before(map, n, tpb) + span_micros(tick - segment_start(map, n), segment_tempo(map, n), tpb)
}

/// Every intermediate quantity of the walk up to `tick` stays within `u64`
/// (no subtraction goes below zero, no product or sum exceeds `u64::MAX`).
#[verifier::opaque]
pub open spec fn micros_fit(map: Seq<TempoChange>, tick: int, tpb: int) -> bool {
    let n = first_reaching(map, tick, 0);
    &&& forall|j: int|
        0 <= j < n ==> {
            &&& segment_start(map, j) <= #[trigger] map[j].at_tick
            &&& (map[j].at_tick - segment_start(map, j)) * segment_tempo(map, j) <= u64::MAX
            &&& micros_before(map, j + 1, tpb) <= u64::MAX
        }
    &&& segment_start(map, n) <= tick
    &&& (tick - segment_start(map, n)) * segment_tempo(map, n) <= u64::MAX
    &&& micros_at(map, tick, tpb) <= u64::MAX
}

/// Tempo changes are listed in order of their ticks.
pub open spec fn tempo_sorted(map: Seq<TempoChange>) -> bool {
    forall|i: int, j: int| 0 <= i <= j < map.len() ==> map[i].at_tick <= map[j].at_tick
}

pub proof fn lemma_first_reaching(map: Seq<TempoChange>, tick: int, i: int)
    requires
        0 <= i <= map.len(),
    ensures
        i <= first_reaching(map, tick, i) <= map.len(),
        forall|k: int| i <= k < first_reaching(map, tick, i) ==> map[k].at_tick < tick,
        first_reaching(map, tick, i) < map.len() ==> map[first_reaching(map, tick, i)].at_tick
            >= tick,
    decreases map.len() - i,
{
    if i < map.len() && map[i].at_tick < tick {
        lemma_first_reaching(map, tick, i + 1);
    }
}

proof fn lemma_first_reaching_ordered(map: Seq<TempoChange>, t1: int, t2: int)
    requires
        t1 <= t2,
    ensures
        first_reaching(map, t1, 0) <= first_reaching(map, t2, 0),
{
    lemma_first_reaching(map, t1, 0);
    lemma_first_reaching(map, t2, 0);
    let n1 = first_reaching(map, t1, 0);
    let n2 = first_reaching(map, t2, 0);
    if n2 < n1 {
        assert(map[n2].at_tick < t1);
    }
}

proof fn lemma_span_ordered(a: int, b: int, mpb: int, tpb: int)
    requires
        0 <= a <= b,
        mpb >= 0,
        tpb > 0,
    ensures
        0 <= span_micros(a, mpb, tpb) <= span_micros(b, mpb, tpb),
{
    lemma_mul_inequality(a, b, mpb);
    lemma_mul_inequality(0, a, mpb);
    lemma_div_is_ordered(a * mpb, b * mpb, tpb);
    lemma_div_is_ordered(0, a * mpb, tpb);
}

proof fn lemma_micros_before_ordered(map: Seq<TempoChange>, j: int, k: int, tpb: int)
    requires
        tempo_sorted(map),
        tpb > 0,
        0 <= j <= k <= map.len(),
    ensures
        0 <= micros_before(map, j, tpb) <= micros_before(map, k, tpb),
    decreases k,
{
    if k > j {
        lemma_micros_before_ordered(map, j, k - 1, tpb);
        assert(segment_start(map, k - 1) <= map[k - 1].at_tick);
        lemma_span_ordered(
            0,
            map[k - 1].at_tick - segment_start(map, k - 1),
            segment_tempo(map, k - 1),
            tpb,
        );
    } else {
        lemma_micros_before_nonneg(map, j, tpb);
    }
}

proof fn lemma_micros_before_nonneg(map: Seq<TempoChange>, j: int, tpb: int)
    requires
        tempo_sorted(map),
        tpb > 0,
        0 <= j <= map.len(),
    ensures
        0 <= micros_before(map, j, tpb),
    decreases j,
{
    if j > 0 {
        lemma_micros_before_nonneg(map, j - 1, tpb);
        assert(segment_start(map, j - 1) <= map[j - 1].at_tick);
        lemma_span_ordered(0, map[j - 1].at_tick - segment_start(map, j - 1), segment_tempo(map, j - 1), tpb);
    }
}

proof fn lemma_micros_before_prefix(m1: Seq<TempoChange>, m2: Seq<TempoChange>, j: int, tpb: int)
    requires
        0 <= j <= m1.len(),
        j <= m2.len(),
        m1.take(j) == m2.take(j),
    ensures
        micros_before(m1, j, tpb) == micros_before(m2, j, tpb),
    decreases j,
{
    if j > 0 {
        assert(m1.take(j - 1) =~= m1.take(j).take(j - 1));
        assert(m2.take(j - 1) =~= m2.take(j).take(j - 1));
        lemma_micros_before_prefix(m1, m2, j - 1, tpb);
        assert(m1[j - 1] == m1.take(j)[j - 1]);
        assert(m2[j - 1] == m2.take(j)[j - 1]);
        if j > 1 {
            assert(m1[j - 2] == m1.take(j)[j - 2]);
            assert(m2[j - 2] == m2.take(j)[j - 2]);
        }
    }
}

/// The time of the first tick is zero; up to the first tempo change the clock
/// runs at 120 BPM (500 000 microseconds per beat); and the time of a tick
/// depends only on the tempo changes before it: another map with the same
/// changes before `tick`, whose next change (if any) is not before `tick`,
/// times it the same.
pub proof fn lemma_micros_local(map: Seq<TempoChange>, other: Seq<TempoChange>, tick: int, tpb: int)
    requires
        tpb > 0,
        ({
            let n = first_reaching(map, tick, 0);
            &&& n <= other.len()
            &&& other.take(n) == map.take(n)
            &&& n < other.len() ==> other[n].at_tick >= tick
        }),
    ensures
        micros_at(map, 0, tpb) == 0,
        0 <= tick && (map.len() == 0 || tick <= map[0].at_tick) ==> micros_at(map, tick, tpb) == span_micros(
            tick,
            500_000,
            tpb,
        ),
        micros_at(other, tick, tpb) == micros_at(map, tick, tpb),
{
    reveal(micros_at);
    lemma_first_reaching(map, tick, 0);
    let n = first_reaching(map, tick, 0);
    lemma_first_reaching(other, tick, 0);
    let k = first_reaching(other, tick, 0);
    assert forall|i: int| 0 <= i < n implies other[i] == map[i] by {
        assert(other[i] == other.take(n)[i]);
        assert(map[i] == map.take(n)[i]);
    }
    if k < n {
        assert(other[k].at_tick >= tick);
    }
    if k > n {
        assert(other[n].at_tick < tick);
    }
    assert(k == n);
    lemma_micros_before_prefix(map, other, n, tpb);
    lemma_first_reaching(map, 0, 0);
    assert(first_reaching(map, 0, 0) == 0) by {
        if map.len() > 0 {
            assert(map[0].at_tick >= 0);
        }
    }
    assert(0 * segment_tempo(map, 0) == 0);
    assert(span_micros(0, segment_tempo(map, 0), tpb) == 0);
}

/// The clock never runs backwards: on a sorted tempo map, a later tick is never
/// timed earlier, and a walk that stays within `u64` up to a tick also does so
/// up to every earlier tick.
pub proof fn lemma_micros_monotone(map: Seq<TempoChange>, t1: int, t2: int, tpb: int)
    requires
        tempo_sorted(map),
        tpb > 0,
        0 <= t1 <= t2,
    ensures
        micros_at(map, t1, tpb) <= micros_at(map, t2, tpb),
        micros_fit(map, t2, tpb) ==> micros_fit(map, t1, tpb),
{
    reveal(micros_at);
    reveal(micros_fit);
    lemma_first_reaching(map, t1, 0);
    lemma_first_reaching(map, t2, 0);
    lemma_first_reaching_ordered(map, t1, t2);
    let n1 = first_reaching(map, t1, 0);
    let n2 = first_reaching(map, t2, 0);
    let s1 = segment_start(map, n1);
    let m1 = segment_tempo(map, n1);
    assert(s1 <= t1) by {
        if n1 > 0 {
            assert(map[n1 - 1].at_tick < t1);
        }
    }
    assert(s1 <= t2 - 0);
    if n1 < n2 {
        assert(map[n1].at_tick >= t1);
        assert(s1 <= map[n1].at_tick) by {
            if n1 > 0 {
                assert(map[n1 - 1].at_tick <= map[n1 as int].at_tick);
            }
        }
        lemma_span_ordered(t1 - s1, map[n1].at_tick - s1, m1, tpb);
        lemma_micros_before_ordered(map, n1 + 1, n2, tpb);
        assert(segment_start(map, n2) <= t2) by {
            assert(map[n2 - 1].at_tick < t2);
        }
        lemma_span_ordered(0, t2 - segment_start(map, n2), segment_tempo(map, n2), tpb);
        assert((t1 - s1) * m1 <= (map[n1].at_tick - s1) * m1) by {
            lemma_mul_inequality(t1 - s1, map[n1].at_tick - s1, m1);
        }
    } else {
        lemma_span_ordered(t1 - s1, t2 - s1, m1, tpb);
        assert((t1 - s1) * m1 <= (t2 - s1) * m1) by {
            lemma_mul_inequality(t1 - s1, t2 - s1, m1);
        }
    }
}

/// Convert an absolute tick to absolute microseconds, accounting for all
/// tempo changes up to that point.
pub fn tick_to_micros_abs(tick: u64, tempo_map: &[TempoChange], ticks_per_beat: u16) -> (r: u64)
    requires
        ticks_per_beat > 0,
        micros_fit(tempo_map@, tick as int, ticks_per_beat as int),
    ensures
        r == micros_at(tempo_map@, tick as int, ticks_per_beat as int),
{
    let ghost map = tempo_map@;
    let ghost tpb = ticks_per_beat as int;
    let ghost n = first_reaching(map, tick as int, 0);
    proof {
        lemma_first_reaching(map, tick as int, 0);
        reveal(micros_at);
        reveal(micros_fit);
    }
    let mut total_us: u64 = 0;
    let mut prev_tick: u64 = 0;
    let mut current_mpb: u64 = 500_000;
    let mut i: usize = 0;
    while i < tempo_map.len()
        invariant_except_break
            i <= n,
        invariant
            0 <= i <= tempo_map.len(),
            map == tempo_map@,
            tpb == ticks_per_beat as int,
            tpb > 0,
            n == first_reaching(map, tick as int, 0),
            i <= n <= map.len(),
            forall|k: int| 0 <= k < n ==> map[k].at_tick < tick,
            n < map.len() ==> map[n].at_tick >= tick,
            micros_fit(map, tick as int, tpb),
            prev_tick == segment_start(map, i as int),
            current_mpb == segment_tempo(map, i as int),
            total_us == micros_before(map, i as int, tpb),
        ensures
            i == n,
            prev_tick == segment_start(map, i as int),
            current_mpb == segment_tempo(map, i as int),
            total_us == micros_before(map, i as int, tpb),
        decreases tempo_map.len() - i,
    {
        proof {
            reveal(micros_fit);
        }
        let tc = tempo_map[i];
        if tc.at_tick >= tick {
            break;
        }
        assert(map[i as int] == tc);
        assert(segment_start(map, i as int) <= map[i as int].at_tick);
        let span = tc.at_tick - prev_tick;
        assert(span * current_mpb <= u64::MAX);
        let scaled = span * current_mpb;
        total_us = total_us + scaled / ticks_per_beat as u64;
        prev_tick = tc.at_tick;
        current_mpb = tc.micros_per_beat as u64;
        i = i + 1;
    }
    proof {
        reveal(micros_fit);
        reveal(micros_at);
    }
    assert(prev_tick <= tick);
    let span = tick - prev_tick;
    assert(span * current_mpb <= u64::MAX);
    let scaled = span * current_mpb;
    total_us = total_us + scaled / ticks_per_beat as u64;
    total_us
}

} // verus!

verus! {

use crate::smf::{RawEvent, RawKind, RawSmf, RawTiming};
use crate::sort::{TickOrdered, stable_sort, sort_by_tick, key_sorted};

impl TickOrdered for TimedEvent {
    open spec fn sort_key(&self) -> u64 {
        self.tick
    }

    fn key(&self) -> (k: u64) {
        self.tick
    }
}

impl TickOrdered for Note {
    open spec fn sort_key(&self) -> u64 {
        self.start_tick
    }

    fn key(&self) -> (k: u64) {
        self.start_tick
    }
}

impl TickOrdered for TempoChange {
    open spec fn sort_key(&self) -> u64 {
        self.at_tick
    }

    fn key(&self) -> (k: u64) {
        self.at_tick
    }
}

// ---------------------------------------------------------------------------
// Building the file model from the parsed tracks
// ---------------------------------------------------------------------------

/// Absolute tick after the first `n` events of a track.
pub open spec fn ticks_through(track: Seq<RawEvent>, n: int) -> int
    decreases n,
{
    if n <= 0 || n > track.len() {
        0
    } else {
        ticks_through(track, n - 1) + track[n - 1].delta
    }
}

/// The note event a raw event stands for, if any. A note-on with velocity 0 is
/// a note-off, as the MIDI specification has it.
pub open spec fn note_event_of(kind: RawKind, tick: u64, track: usize) -> Option<TimedEvent> {
    match kind {
        RawKind::NoteOn { channel, key, velocity } => Some(
            TimedEvent {
                tick,
                track,
                channel,
                kind: if velocity > 0 {
                    EventKind::NoteOn { note: key, velocity }
                } else {
                    EventKind::NoteOff { note: key }
                },
            },
        ),
        RawKind::NoteOff { channel, key } => Some(
            TimedEvent { tick, track, channel, kind: EventKind::NoteOff { note: key } },
        ),
        _ => None,
    }
}

/// Note events among the first `n` events of track `idx`, in track order.
pub open spec fn track_events(track: Seq<RawEvent>, idx: usize, n: int) -> Seq<TimedEvent>
    decreases n,
{
    if n <= 0 || n > track.len() {
        Seq::empty()
    } else {
        let prev = track_events(track, idx, n - 1);
        match note_event_of(track[n - 1].kind, ticks_through(track, n) as u64, idx) {
            Some(e) => prev.push(e),
            None => prev,
        }
    }
}

/// Tempo changes among the first `n` events of a track, in track order.
pub open spec fn track_tempos(track: Seq<RawEvent>, n: int) -> Seq<TempoChange>
    decreases n,
{
    if n <= 0 || n > track.len() {
        Seq::empty()
    } else {
        let prev = track_tempos(track, n - 1);
        match track[n - 1].kind {
            RawKind::Tempo(t) => prev.push(
                TempoChange { at_tick: ticks_through(track, n) as u64, micros_per_beat: t },
            ),
            _ => prev,
        }
    }
}

/// Time signature after the first `n` events of a track, starting from `init`:
/// the last time signature message wins; its denominator is a power of two.
pub open spec fn track_time_sig(track: Seq<RawEvent>, n: int, init: (u8, u8)) -> (u8, u8)
    decreases n,
{
    if n <= 0 || n > track.len() {
        init
    } else {
        match track[n - 1].kind {
            RawKind::TimeSignature { numerator, denominator_pow } => (
                numerator,
                (1u8 << denominator_pow),
            ),
            _ => track_time_sig(track, n - 1, init),
        }
    }
}

/// Key signature after the first `n` events of a track, starting from `init`.
pub open spec fn track_key_sig(track: Seq<RawEvent>, n: int, init: i8) -> i8
    decreases n,
{
    if n <= 0 || n > track.len() {
        init
    } else {
        match track[n - 1].kind {
            RawKind::KeySignature(k) => k,
            _ => track_key_sig(track, n - 1, init),
        }
    }
}

/// Name of a track after its first `n` events: the UTF-8 decoding of the last
/// track-name message (absent when there is none or it is not valid UTF-8).
pub open spec fn track_name_of(track: Seq<RawEvent>, n: int) -> Option<Seq<char>>
    decreases n,
{
    if n <= 0 || n > track.len() {
        None
    } else {
        match track[n - 1].kind {
            RawKind::TrackName(bytes) => crate::text::utf8_decode(bytes@),
            _ => track_name_of(track, n - 1),
        }
    }
}

/// Note events of the first `n` tracks, track after track.
pub open spec fn file_events(tracks: Seq<Vec<RawEvent>>, n: int) -> Seq<TimedEvent>
    decreases n,
{
    if n <= 0 || n > tracks.len() {
        Seq::empty()
    } else {
        file_events(tracks, n - 1) + track_events(tracks[n - 1]@, (n - 1) as usize, tracks[n - 1]@.len() as int)
    }
}

/// Tempo changes of the first `n` tracks, track after track.
pub open spec fn file_tempos(tracks: Seq<Vec<RawEvent>>, n: int) -> Seq<TempoChange>
    decreases n,
{
    if n <= 0 || n > tracks.len() {
        Seq::empty()
    } else {
        file_tempos(tracks, n - 1) + track_tempos(tracks[n - 1]@, tracks[n - 1]@.len() as int)
    }
}

/// Time signature after the first `n` tracks; 4/4 when none is given.
pub open spec fn file_time_sig(tracks: Seq<Vec<RawEvent>>, n: int) -> (u8, u8)
    decreases n,
{
    if n <= 0 || n > tracks.len() {
        (4u8, 4u8)
    } else {
        track_time_sig(tracks[n - 1]@, tracks[n - 1]@.len() as int, file_time_sig(tracks, n - 1))
    }
}

/// Key signature after the first `n` tracks; 0 (C major) when none is given.
pub open spec fn file_key_sig(tracks: Seq<Vec<RawEvent>>, n: int) -> i8
    decreases n,
{
    if n <= 0 || n > tracks.len() {
        0i8
    } else {
        track_key_sig(tracks[n - 1]@, tracks[n - 1]@.len() as int, file_key_sig(tracks, n - 1))
    }
}

/// The tempo map before sorting: a 120 BPM entry at tick 0 is added in front
/// when the file gives no tempo, or its first tempo change comes later.
pub open spec fn with_default_tempo(tempos: Seq<TempoChange>) -> Seq<TempoChange> {
    let d = TempoChange { at_tick: 0, micros_per_beat: DEFAULT_MICROS_PER_BEAT };
    if tempos.len() == 0 {
        seq![d]
    } else if tempos[0].at_tick > 0 {
        seq![d] + tempos
    } else {
        tempos
    }
}

/// Ticks per beat given by the header. SMPTE timing is converted to
/// frames-per-second times ticks-per-frame, 29.97 fps rounded down exactly.
pub open spec fn timing_ticks_per_beat(t: RawTiming) -> u16 {
    match t {
        RawTiming::Metrical(tpb) => tpb,
        RawTiming::Timecode { fps, subframes } => if fps == 29 {
            (30000 * subframes / 1001) as u16
        } else {
            (fps * subframes) as u16
        },
    }
}

/// Largest tick among the first `n` events; 0 when there are none.
pub open spec fn max_event_tick(events: Seq<TimedEvent>, n: int) -> u64
    decreases n,
{
    if n <= 0 || n > events.len() {
        0
    } else {
        let prev = max_event_tick(events, n - 1);
        if events[n - 1].tick > prev {
            events[n - 1].tick
        } else {
            prev
        }
    }
}

/// The tracks can be read without a panic: every track's ticks fit in `u64` and
/// every time-signature denominator is a power of two that fits in a byte.
pub open spec fn raw_tracks_supported(tracks: Seq<Vec<RawEvent>>) -> bool {
    &&& forall|i: int|
        0 <= i < tracks.len() ==> ticks_through(#[trigger] tracks[i]@, tracks[i]@.len() as int)
            <= u64::MAX
    &&& forall|i: int, j: int|
        0 <= i < tracks.len() && 0 <= j < tracks[i]@.len() ==> ((#[trigger] tracks[i]@[j]).kind matches RawKind::TimeSignature {
            denominator_pow,
            ..
        } ==> denominator_pow < 8)
}

pub open spec fn opt_string_view(o: Option<String>) -> Option<Seq<char>> {
    match o {
        Some(s) => Some(s@),
        None => None,
    }
}

/// `file` is the model of the parsed file `raw`.
pub open spec fn built_from(file: MidiFile, raw: RawSmf) -> bool {
    let tracks = raw.tracks@;
    let n = tracks.len() as int;
    &&& file.ticks_per_beat == timing_ticks_per_beat(raw.timing)
    &&& file.tempo_map@ == stable_sort(with_default_tempo(file_tempos(tracks, n)))
    &&& file.time_sig == file_time_sig(tracks, n)
    &&& file.key_sig == file_key_sig(tracks, n)
    &&& file.tracks@.len() == n
    &&& forall|i: int|
        0 <= i < n ==> (#[trigger] file.tracks@[i]).index == i && opt_string_view(
            file.tracks@[i].name,
        ) == track_name_of(tracks[i]@, tracks[i]@.len() as int)
    &&& file.events@ == stable_sort(file_events(tracks, n))
    &&& file.total_ticks == max_event_tick(file.events@, file.events@.len() as int)
    &&& file.notes@ == paired_notes(file.events@, file.total_ticks)
}

proof fn lemma_ticks_through_monotone(track: Seq<RawEvent>, j: int, k: int)
    requires
        0 <= j <= k <= track.len(),
    ensures
        0 <= ticks_through(track, j) <= ticks_through(track, k),
    decreases k,
{
    if k > j {
        lemma_ticks_through_monotone(track, j, k - 1);
    } else if j > 0 {
        lemma_ticks_through_nonneg(track, j);
    }
}

proof fn lemma_ticks_through_nonneg(track: Seq<RawEvent>, j: int)
    requires
        0 <= j <= track.len(),
    ensures
        0 <= ticks_through(track, j),
    decreases j,
{
    if j > 0 {
        lemma_ticks_through_nonneg(track, j - 1);
    }
}

/// Computes the header's ticks per beat.
pub fn ticks_per_beat_of(t: RawTiming) -> (r: u16)
    ensures
        r == timing_ticks_per_beat(t),
{
    match t {
        RawTiming::Metrical(tpb) => tpb,
        RawTiming::Timecode { fps, subframes } => {
            if fps == 29 {
                let scaled: u32 = 30000u32 * (subframes as u32);
                assert(scaled / 1001 <= 7700);
                (scaled / 1001) as u16
            } else {
                assert((fps as u32) * (subframes as u32) <= 255 * 255) by (nonlinear_arith)
                    requires fps <= 255, subframes <= 255;
                let scaled: u32 = (fps as u32) * (subframes as u32);
                scaled as u16
            }
        },
    }
}

} // verus!

verus! {

use crate::sort::lemma_stable_sort_props;

// ---------------------------------------------------------------------------
// Note pairing (NoteOn -> NoteOff)
// ---------------------------------------------------------------------------

/// A note that has started and not yet ended, keyed by (channel, note).
#[derive(Clone, Copy, Debug, PartialEq, Eq)]
pub struct ActiveNote {
    pub channel: u8,
    pub note: u8,
    pub start_tick: u64,
    pub track: usize,
    pub velocity: u8,
}

/// Index of the first active note with this (channel, note) key at or after
/// `i`; the length when there is none.
pub open spec fn active_index(active: Seq<ActiveNote>, channel: u8, note: u8, i: int) -> int
    decreases active.len() - i,
{
    if i < 0 || i >= active.len() {
        active.len() as int
    } else if active[i].channel == channel && active[i].note == note {
        i
    } else {
        active_index(active, channel, note, i + 1)
    }
}

/// One event of the pairing: a note-on starts (or restarts) the note of its
/// key; a note-off ends the note of its key, if one is sounding.
pub open spec fn pair_step(active: Seq<ActiveNote>, closed: Seq<Note>, ev: TimedEvent) -> (Seq<ActiveNote>, Seq<Note>) {
    match ev.kind {
        EventKind::NoteOn { note, velocity } => {
            let a = ActiveNote { channel: ev.channel, note, start_tick: ev.tick, track: ev.track, velocity };
            let i = active_index(active, ev.channel, note, 0);
            if i < active.len() {
                (active.update(i, a), closed)
            } else {
                (active.push(a), closed)
            }
        },
        EventKind::NoteOff { note } => {
            let i = active_index(active, ev.channel, note, 0);
            if i < active.len() {
                (
                    active.remove(i),
                    closed.push(
                        Note {
                            start_tick: active[i].start_tick,
                            end_tick: ev.tick,
                            midi_note: note,
                            track: active[i].track,
                            channel: ev.channel,
                            velocity: active[i].velocity,
                        },
                    ),
                )
            } else {
                (active, closed)
            }
        },
    }
}

/// Sounding notes and finished notes after the first `n` events.
pub open spec fn pair_state(events: Seq<TimedEvent>, n: int) -> (Seq<ActiveNote>, Seq<Note>)
    decreases n,
{
    if n <= 0 || n > events.len() {
        (Seq::empty(), Seq::empty())
    } else {
        let (a, c) = pair_state(events, n - 1);
        pair_step(a, c, events[n - 1])
    }
}

/// A note still sounding at the end of the events, closed at `end_tick`.
pub open spec fn unfinished_note(a: ActiveNote, end_tick: u64) -> Note {
    Note {
        start_tick: a.start_tick,
        end_tick,
        midi_note: a.note,
        track: a.track,
        channel: a.channel,
        velocity: a.velocity,
    }
}

/// All notes of the events: finished notes in the order they end, then notes
/// that never end (closed at `total_ticks`) in the order they started, the
/// whole stably sorted by start tick.
pub open spec fn paired_notes(events: Seq<TimedEvent>, total_ticks: u64) -> Seq<Note> {
    let (active, closed) = pair_state(events, events.len() as int);
    stable_sort(closed + active.map_values(|a: ActiveNote| unfinished_note(a, total_ticks)))
}

proof fn lemma_active_index(active: Seq<ActiveNote>, channel: u8, note: u8, i: int)
    requires
        0 <= i <= active.len(),
    ensures
        i <= active_index(active, channel, note, i) <= active.len(),
        forall|k: int|
            i <= k < active_index(active, channel, note, i) ==> !(active[k].channel == channel
                && active[k].note == note),
        active_index(active, channel, note, i) < active.len() ==> active[active_index(
            active,
            channel,
            note,
            i,
        )].channel == channel && active[active_index(active, channel, note, i)].note == note,
    decreases active.len() - i,
{
    if i < active.len() && !(active[i].channel == channel && active[i].note == note) {
        lemma_active_index(active, channel, note, i + 1);
    }
}

fn find_active(active: &Vec<ActiveNote>, channel: u8, note: u8) -> (r: usize)
    ensures
        r == active_index(active@, channel, note, 0),
{
    proof {
        lemma_active_index(active@, channel, note, 0);
    }
    let mut i: usize = 0;
    while i < active.len()
        invariant
            0 <= i <= active@.len(),
            active_index(active@, channel, note, 0) == active_index(active@, channel, note, i as int),
        decreases active@.len() - i,
    {
        if active[i].channel == channel && active[i].note == note {
            return i;
        }
        i = i + 1;
    }
    i
}

/// Pairs each note-on with the next note-off of the same channel and key.
/// Notes that never end are closed at `total_ticks`; the result is sorted by
/// start tick.
pub fn pair_notes(events: &[TimedEvent], total_ticks: u64) -> (r: Vec<Note>)
    ensures
        r@ == paired_notes(events@, total_ticks),
        key_sorted(r@),
{
    let mut active: Vec<ActiveNote> = Vec::new();
    let mut closed: Vec<Note> = Vec::new();
    let mut i: usize = 0;
    while i < events.len()
        invariant
            0 <= i <= events@.len(),
            (active@, closed@) == pair_state(events@, i as int),
        decreases events@.len() - i,
    {
        let ev = events[i];
        match ev.kind {
            EventKind::NoteOn { note, velocity } => {
                let a = ActiveNote { channel: ev.channel, note, start_tick: ev.tick, track: ev.track, velocity };
                let k = find_active(&active, ev.channel, note);
                if k < active.len() {
                    active.set(k, a);
                } else {
                    active.push(a);
                }
            },
            EventKind::NoteOff { note } => {
                let k = find_active(&active, ev.channel, note);
                if k < active.len() {
                    let a = active.remove(k);
                    closed.push(
                        Note {
                            start_tick: a.start_tick,
                            end_tick: ev.tick,
                            midi_note: note,
                            track: a.track,
                            channel: ev.channel,
                            velocity: a.velocity,
                        },
                    );
                }
            },
        }
        i = i + 1;
    }
    let ghost closed_part = closed@;
    let mut j: usize = 0;
    while j < active.len()
        invariant
            0 <= j <= active@.len(),
            closed@ == closed_part + active@.take(j as int).map_values(
                |a: ActiveNote| unfinished_note(a, total_ticks),
            ),
        decreases active@.len() - j,
    {
        let a = active[j];
        closed.push(
            Note {
                start_tick: a.start_tick,
                end_tick: total_ticks,
                midi_note: a.note,
                track: a.track,
                channel: a.channel,
                velocity: a.velocity,
            },
        );
        proof {
            assert(active@.take(j + 1) =~= active@.take(j as int).push(a));
            assert(active@.take(j + 1).map_values(|a: ActiveNote| unfinished_note(a, total_ticks))
                =~= active@.take(j as int).map_values(|a: ActiveNote| unfinished_note(a, total_ticks)).push(
                unfinished_note(a, total_ticks)));
        }
        j = j + 1;
    }
    assert(active@.take(active@.len() as int) =~= active@);
    sort_by_tick(closed.as_slice())
}

} // verus!

verus! {

// ---------------------------------------------------------------------------
// Load & parse
// ---------------------------------------------------------------------------

/// Builds the file model from its parsed tracks: note events with absolute
/// ticks (stably sorted by tick, track order kept within a tick), the sorted
/// tempo map with a 120 BPM default, the last time and key signatures, track
/// names, the last event tick and the paired notes.
pub fn build_midi_file(raw: &RawSmf) -> (r: MidiFile)
    requires
        raw_tracks_supported(raw.tracks@),
    ensures
        built_from(r, *raw),
{
    let ghost tracks = raw.tracks@;
    let mut tracks_info: Vec<TrackInfo> = Vec::new();
    let mut tempo_list: Vec<TempoChange> = Vec::new();
    let mut event_list: Vec<TimedEvent> = Vec::new();
    let mut time_sig: (u8, u8) = (4u8, 4u8);
    let mut key_sig: i8 = 0i8;
    let mut i: usize = 0;
    while i < raw.tracks.len()
        invariant
            0 <= i <= tracks.len(),
            tracks == raw.tracks@,
            raw_tracks_supported(tracks),
            event_list@ == file_events(tracks, i as int),
            tempo_list@ == file_tempos(tracks, i as int),
            time_sig == file_time_sig(tracks, i as int),
            key_sig == file_key_sig(tracks, i as int),
            tracks_info@.len() == i,
            forall|k: int|
                0 <= k < i ==> (#[trigger] tracks_info@[k]).index == k && opt_string_view(
                    tracks_info@[k].name,
                ) == track_name_of(tracks[k]@, tracks[k]@.len() as int),
        decreases tracks.len() - i,
    {
        let track = &raw.tracks[i];
        let ghost t = track@;
        let ghost base_events = event_list@;
        let ghost base_tempos = tempo_list@;
        let ghost base_sig = time_sig;
        let ghost base_key = key_sig;
        assert(ticks_through(t, t.len() as int) <= u64::MAX);
        let mut abs_tick: u64 = 0;
        let mut track_name: Option<String> = None;
        let mut j: usize = 0;
        while j < track.len()
            invariant
                0 <= j <= t.len(),
                t == track@,
                t == tracks[i as int]@,
                i < tracks.len(),
                raw_tracks_supported(tracks),
                ticks_through(t, t.len() as int) <= u64::MAX,
                abs_tick == ticks_through(t, j as int),
                event_list@ == base_events + track_events(t, i, j as int),
                tempo_list@ == base_tempos + track_tempos(t, j as int),
                time_sig == track_time_sig(t, j as int, base_sig),
                key_sig == track_key_sig(t, j as int, base_key),
                opt_string_view(track_name) == track_name_of(t, j as int),
            decreases t.len() - j,
        {
            let ev = &track[j];
            proof {
                lemma_ticks_through_monotone(t, j + 1, t.len() as int);
            }
            abs_tick = abs_tick + ev.delta as u64;
            match &ev.kind {
                RawKind::NoteOn { channel, key, velocity } => {
                    let kind = if *velocity > 0 {
                        EventKind::NoteOn { note: *key, velocity: *velocity }
                    } else {
                        EventKind::NoteOff { note: *key }
                    };
                    event_list.push(TimedEvent { tick: abs_tick, track: i, channel: *channel, kind });
                },
                RawKind::NoteOff { channel, key } => {
                    event_list.push(
                        TimedEvent {
                            tick: abs_tick,
                            track: i,
                            channel: *channel,
                            kind: EventKind::NoteOff { note: *key },
                        },
                    );
                },
                RawKind::Tempo(mpb) => {
                    tempo_list.push(TempoChange { at_tick: abs_tick, micros_per_beat: *mpb });
                },
                RawKind::TimeSignature { numerator, denominator_pow } => {
                    assert(tracks[i as int]@[j as int] == *ev);
                    time_sig = (*numerator, 1u8 << *denominator_pow);
                },
                RawKind::KeySignature(k) => {
                    key_sig = *k;
                },
                RawKind::TrackName(bytes) => {
                    track_name = crate::text::utf8_to_string(bytes.as_slice());
                },
                RawKind::Other => {},
            }
            proof {
                assert(t[j as int] == *ev);
                assert(base_events + track_events(t, i, j + 1) =~= event_list@);
                assert(base_tempos + track_tempos(t, j + 1) =~= tempo_list@);
            }
            j = j + 1;
        }
        proof {
            assert(file_events(tracks, i + 1) == file_events(tracks, i as int) + track_events(t, i, t.len() as int));
            assert(file_tempos(tracks, i + 1) == file_tempos(tracks, i as int) + track_tempos(t, t.len() as int));
        }
        tracks_info.push(TrackInfo { index: i, name: track_name });
        i = i + 1;
    }

    let events = sort_by_tick(event_list.as_slice());

    let mut tempos: Vec<TempoChange> = Vec::new();
    let default_tempo = TempoChange { at_tick: 0, micros_per_beat: DEFAULT_MICROS_PER_BEAT };
    if tempo_list.len() == 0 {
        tempos.push(default_tempo);
    } else if tempo_list[0].at_tick > 0 {
        tempos.push(default_tempo);
    }
    let mut k: usize = 0;
    let ghost prefix = tempos@;
    while k < tempo_list.len()
        invariant
            0 <= k <= tempo_list@.len(),
            tempos@ == prefix + tempo_list@.take(k as int),
        decreases tempo_list@.len() - k,
    {
        tempos.push(tempo_list[k]);
        proof {
            assert(tempo_list@.take(k + 1) =~= tempo_list@.take(k as int).push(tempo_list@[k as int]));
        }
        k = k + 1;
    }
    assert(tempo_list@.take(tempo_list@.len() as int) =~= tempo_list@);
    assert(tempos@ =~= with_default_tempo(tempo_list@));
    let tempo_map = sort_by_tick(tempos.as_slice());

    let mut total_ticks: u64 = 0;
    let mut m: usize = 0;
    while m < events.len()
        invariant
            0 <= m <= events@.len(),
            total_ticks == max_event_tick(events@, m as int),
        decreases events@.len() - m,
    {
        if events[m].tick > total_ticks {
            total_ticks = events[m].tick;
        }
        m = m + 1;
    }

    let notes = pair_notes(events.as_slice(), total_ticks);
    let ticks_per_beat = ticks_per_beat_of(raw.timing);
    MidiFile {
        ticks_per_beat,
        tempo_map,
        time_sig,
        key_sig,
        tracks: tracks_info,
        events,
        notes,
        total_ticks,
    }
}

} // verus!

verus! {

use crate::smf::{parse_smf, raw_tracks, smf_parse, tracks_view, RawEventView, RawKindView};

/// Absolute tick after the first `n` events of a parsed track.
pub open spec fn view_ticks_through(track: Seq<RawEventView>, n: int) -> int
    decreases n,
{
    if n <= 0 || n > track.len() {
        0
    } else {
        view_ticks_through(track, n - 1) + track[n - 1].delta
    }
}

/// The parsed tracks can be read: every track's ticks fit in `u64` and every
/// time-signature denominator is a power of two that fits in a byte.
pub open spec fn parsed_tracks_supported(tracks: Seq<Seq<RawEventView>>) -> bool {
    &&& forall|i: int| 0 <= i < tracks.len() ==> view_ticks_through(#[trigger] tracks[i], tracks[i].len() as int) <= u64::MAX
    &&& forall|i: int, j: int|
        0 <= i < tracks.len() && 0 <= j < tracks[i].len() ==> ((#[trigger] tracks[i][j]).kind matches RawKindView::TimeSignature {
            denominator_pow,
            ..
        } ==> denominator_pow < 8)
}

proof fn lemma_view_ticks(track: Seq<RawEvent>, n: int)
    requires
        0 <= n <= track.len(),
    ensures
        ticks_through(track, n) == view_ticks_through(track.map_values(|e: RawEvent| e@), n),
    decreases n,
{
    if n > 0 {
        lemma_view_ticks(track, n - 1);
    }
}

proof fn lemma_supported_views(tracks: Seq<Vec<RawEvent>>)
    ensures
        raw_tracks_supported(tracks) == parsed_tracks_supported(tracks_view(tracks)),
{
    let v = tracks_view(tracks);
    assert forall|i: int| 0 <= i < tracks.len() implies #[trigger] v[i] == tracks[i]@.map_values(|e: RawEvent| e@) by {}
    assert forall|i: int| 0 <= i < tracks.len() implies ticks_through(#[trigger] tracks[i]@, tracks[i]@.len() as int)
        == view_ticks_through(v[i], v[i].len() as int) by {
        lemma_view_ticks(tracks[i]@, tracks[i]@.len() as int);
    }
    if raw_tracks_supported(tracks) {
        assert forall|i: int, j: int| 0 <= i < v.len() && 0 <= j < v[i].len() implies ((#[trigger] v[i][j]).kind matches RawKindView::TimeSignature {
            denominator_pow,
            ..
        } ==> denominator_pow < 8) by {
            assert(v[i][j] == tracks[i]@[j]@);
        }
    }
    if parsed_tracks_supported(v) {
        assert forall|i: int, j: int| 0 <= i < tracks.len() && 0 <= j < tracks[i]@.len() implies ((#[trigger] tracks[i]@[j]).kind matches RawKind::TimeSignature {
            denominator_pow,
            ..
        } ==> denominator_pow < 8) by {
            assert(v[i][j] == tracks[i]@[j]@);
        }
    }
}

/// `file` is the model of `raw`, which holds the timing and the track events
/// of the parse of the file `bytes`.
pub open spec fn file_of_raw(bytes: Seq<u8>, raw: RawSmf, file: MidiFile) -> bool {
    &&& smf_parse(bytes) matches Ok(c) && c.0 == raw.timing && c.1 == tracks_view(raw.tracks@)
    &&& raw_tracks_supported(raw.tracks@)
    &&& built_from(file, raw)
}

/// `file` is the model of the parse of the file `bytes`.
pub open spec fn loaded_from(bytes: Seq<u8>, file: MidiFile) -> bool {
    exists|raw: RawSmf| #[trigger] file_of_raw(bytes, raw, file)
}

/// Whether every track's ticks fit in `u64` and every time-signature
/// denominator fits in a byte.
pub fn tracks_supported(tracks: &Vec<Vec<RawEvent>>) -> (r: bool)
    ensures
        r == raw_tracks_supported(tracks@),
{
    let mut i: usize = 0;
    while i < tracks.len()
        invariant
            0 <= i <= tracks@.len(),
            forall|k: int|
                0 <= k < i ==> ticks_through(#[trigger] tracks@[k]@, tracks@[k]@.len() as int)
                    <= u64::MAX,
            forall|k: int, j: int|
                0 <= k < i && 0 <= j < tracks@[k]@.len() ==> ((#[trigger] tracks@[k]@[j]).kind matches RawKind::TimeSignature {
                    denominator_pow,
                    ..
                } ==> denominator_pow < 8),
        decreases tracks@.len() - i,
    {
        let track = &tracks[i];
        let ghost t = track@;
        let mut tick: u64 = 0;
        let mut j: usize = 0;
        while j < track.len()
            invariant
                0 <= j <= t.len(),
                0 <= i < tracks@.len(),
                t == track@,
                t == tracks@[i as int]@,
                tick == ticks_through(t, j as int),
                forall|q: int|
                    0 <= q < j ==> ((#[trigger] t[q]).kind matches RawKind::TimeSignature {
                        denominator_pow,
                        ..
                    } ==> denominator_pow < 8),
            decreases t.len() - j,
        {
            let ev = &track[j];
            match tick.checked_add(ev.delta as u64) {
                Some(next) => {
                    tick = next;
                },
                None => {
                    proof {
                        lemma_ticks_through_monotone(t, j + 1, t.len() as int);
                        assert(t[j as int] == *ev);
                        assert(ticks_through(tracks@[i as int]@, tracks@[i as int]@.len() as int) > u64::MAX);
                    }
                    return false;
                },
            }
            match &ev.kind {
                RawKind::TimeSignature { denominator_pow, .. } => {
                    if *denominator_pow >= 8 {
                        assert(tracks@[i as int]@[j as int] == *ev);
                        assert(!((tracks@[i as int]@[j as int]).kind matches RawKind::TimeSignature {
                            denominator_pow,
                            ..
                        } ==> denominator_pow < 8));
                        return false;
                    }
                },
                _ => {},
            }
            j = j + 1;
        }
        i = i + 1;
    }
    true
}

/// Parses the bytes of a Standard MIDI File and builds its model. A parse
/// failure is reported as "parse error: " followed by the parser's message;
/// track data this viewer cannot time (ticks beyond `u64`, a time-signature
/// denominator beyond 2^7) is reported as a parse error too.
pub fn load_bytes(bytes: &[u8]) -> (r: Result<MidiFile, String>)
    ensures
        smf_parse(bytes@) matches Err(m) ==> (r matches Err(e) && e@ == "parse error: "@ + m),
        r matches Ok(f) ==> loaded_from(bytes@, f),
        smf_parse(bytes@) is Ok && r is Err ==> (r matches Err(e) && e@
            == "parse error: unsupported track data"@),
        r is Ok <==> (smf_parse(bytes@) matches Ok(c) && parsed_tracks_supported(c.1)),
{
    match parse_smf(bytes) {
        Err(message) => {
            let mut e = String::from_str("parse error: ");
            e.append(message.as_str());
            proof {
                reveal_strlit("parse error: ");
            }
            Err(e)
        },
        Ok(parsed) => {
            let tracks = raw_tracks(&parsed);
            proof {
                lemma_supported_views(tracks@);
            }
            if !tracks_supported(&tracks) {
                let e = String::from_str("parse error: unsupported track data");
                return Err(e);
            }
            let raw = RawSmf { timing: parsed.timing(), tracks };
            let file = build_midi_file(&raw);
            assert(built_from(file, raw));
            assert(smf_parse(bytes@) matches Ok(c) && c.0 == raw.timing && c.1 == tracks_view(raw.tracks@));
            assert(raw_tracks_supported(raw.tracks@));
            assert(file_of_raw(bytes@, raw, file));
            assert(loaded_from(bytes@, file));
            Ok(file)
        },
    }
}

} // verus!

verus! {

use std::collections::HashSet;

// ---------------------------------------------------------------------------
// Octave auto-scaling
// ---------------------------------------------------------------------------

/// Number of elements of `s` below `k`, counted one value at a time.
pub open spec fn count_below(s: Set<u8>, k: int) -> nat
    decreases k,
{
    if k <= 0 {
        0
    } else {
        count_below(s, k - 1) + if s.contains((k - 1) as u8) { 1nat } else { 0nat }
    }
}

pub proof fn lemma_count_below(s: Set<u8>, k: int)
    requires
        0 <= k <= 256,
    ensures
        s.filter(|n: u8| (n as int) < k).finite(),
        s.filter(|n: u8| (n as int) < k).len() == count_below(s, k),
    decreases k,
{
    if k == 0 {
        assert(s.filter(|n: u8| (n as int) < k) =~= Set::<u8>::empty());
    } else {
        lemma_count_below(s, k - 1);
        let prev = s.filter(|n: u8| (n as int) < k - 1);
        let cur = s.filter(|n: u8| (n as int) < k);
        if s.contains((k - 1) as u8) {
            assert(cur =~= prev.insert((k - 1) as u8));
        } else {
            assert(cur =~= prev);
        }
    }
}

/// Every byte-valued set has as many elements as the count of its members.
pub proof fn lemma_set_u8_len(s: Set<u8>)
    ensures
        s.finite(),
        s.len() == count_below(s, 256),
{
    lemma_count_below(s, 256);
    assert(s.filter(|n: u8| (n as int) < 256) =~= s);
}

/// `e` is a note-on of note `n`.
pub open spec fn plays_note(e: TimedEvent, n: u8) -> bool {
    e.kind matches EventKind::NoteOn { note, .. } && note == n
}

/// The distinct notes that some note-on event of the file plays.
pub open spec fn note_on_notes(events: Seq<TimedEvent>) -> Set<u8> {
    Set::new(
        |n: u8|
            exists|i: int|
                0 <= i < events.len() && plays_note(#[trigger] events[i], n),
    )
}

/// Note `n` shifted by `offset` semitones is a MIDI note present on the keyboard.
pub open spec fn shift_fits(n: u8, offset: int, keyboard: Set<u8>) -> bool {
    0 <= n + offset <= 127 && keyboard.contains((n + offset) as u8)
}

/// How many of `notes` land on the keyboard once shifted by `offset`.
pub open spec fn octave_coverage(notes: Set<u8>, keyboard: Set<u8>, offset: int) -> nat {
    notes.filter(|n: u8| shift_fits(n, offset, keyboard)).len()
}

/// The octave shifts that are tried: whole octaves from four down to four up.
pub open spec fn candidate_offset(offset: int) -> bool {
    -48 <= offset <= 48 && offset % 12 == 0
}

pub open spec fn abs_int(x: int) -> int {
    if x < 0 { -x } else { x }
}

/// `offset` is the best octave shift: it covers the most notes, and among
/// those the smallest shift wins (the downward one when both directions tie).
pub open spec fn is_best_offset(notes: Set<u8>, keyboard: Set<u8>, offset: int) -> bool {
    &&& candidate_offset(offset)
    &&& forall|o: int| #[trigger] candidate_offset(o) ==> octave_coverage(notes, keyboard, o)
        <= octave_coverage(notes, keyboard, offset)
    &&& forall|o: int|
        #[trigger] candidate_offset(o) && octave_coverage(notes, keyboard, o) == octave_coverage(
            notes,
            keyboard,
            offset,
        ) ==> abs_int(offset) < abs_int(o) || (abs_int(offset) == abs_int(o) && offset <= o)
}

fn count_fitting(present: &Vec<bool>, keyboard_notes: &HashSet<u8>, offset: i16, Ghost(notes): Ghost<Set<u8>>) -> (r: usize)
    requires
        present@.len() == 256,
        forall|n: u8| #[trigger] present@[n as int] == notes.contains(n),
        -48 <= offset <= 48,
    ensures
        r == octave_coverage(notes, keyboard_notes@, offset as int),
{
    broadcast use vstd::std_specs::hash::group_hash_axioms;

    let ghost fitting = notes.filter(|n: u8| shift_fits(n, offset as int, keyboard_notes@));
    let mut count: usize = 0;
    let mut n: usize = 0;
    while n < 256
        invariant
            0 <= n <= 256,
            present@.len() == 256,
            forall|m: u8| #[trigger] present@[m as int] == notes.contains(m),
            -48 <= offset <= 48,
            fitting == notes.filter(|m: u8| shift_fits(m, offset as int, keyboard_notes@)),
            count == count_below(fitting, n as int),
            count <= n,
        decreases 256 - n,
    {
        let note = n as u8;
        assert(present@[note as int] == present@[n as int]);
        if present[n] {
            let shifted: i16 = note as i16 + offset;
            if 0 <= shifted && shifted <= 127 && keyboard_notes.contains(&(shifted as u8)) {
                count = count + 1;
            }
        }
        n = n + 1;
    }
    proof {
        lemma_set_u8_len(fitting);
    }
    count
}

/// Returns (offset_in_semitones, notes_covered, total_unique_notes): the whole
/// octave shift (from -48 to +48 semitones) that puts the most distinct
/// note-on notes of the file onto the keyboard, preferring smaller shifts on a
/// tie. `keyboard_note = file_note + offset`. A file without note-ons gives (0, 0, 0).
pub fn best_octave_offset(file: &MidiFile, keyboard_notes: &HashSet<u8>) -> (r: (i8, usize, usize))
    ensures
        r.2 == note_on_notes(file.events@).len(),
        r.2 == 0 ==> r == (0i8, 0usize, 0usize),
        r.2 > 0 ==> is_best_offset(note_on_notes(file.events@), keyboard_notes@, r.0 as int)
            && r.1 == octave_coverage(note_on_notes(file.events@), keyboard_notes@, r.0 as int),
{
    let ghost notes = note_on_notes(file.events@);
    let mut present: Vec<bool> = Vec::new();
    let mut k: usize = 0;
    while k < 256
        invariant
            0 <= k <= 256,
            present@.len() == k,
            forall|m: int| 0 <= m < k ==> !present@[m],
        decreases 256 - k,
    {
        present.push(false);
        k = k + 1;
    }
    let mut i: usize = 0;
    while i < file.events.len()
        invariant
            0 <= i <= file.events@.len(),
            present@.len() == 256,
            notes == note_on_notes(file.events@),
            forall|n: u8|
                #[trigger] present@[n as int] == exists|q: int|
                    0 <= q < i && plays_note(#[trigger] file.events@[q], n),
        decreases file.events@.len() - i,
    {
        match file.events[i].kind {
            EventKind::NoteOn { note, .. } => {
                present.set(note as usize, true);
                proof {
                    assert forall|n: u8| #[trigger] present@[n as int] == exists|q: int|
                        0 <= q < i + 1 && plays_note(#[trigger] file.events@[q], n) by {
                        if n == note {
                            assert(plays_note(file.events@[i as int], n));
                        }
                    }
                }
            },
            _ => {},
        }
        i = i + 1;
    }
    assert forall|n: u8| #[trigger] present@[n as int] == notes.contains(n) by {}
    let mut total: usize = 0;
    let mut n: usize = 0;
    while n < 256
        invariant
            0 <= n <= 256,
            present@.len() == 256,
            forall|m: u8| #[trigger] present@[m as int] == notes.contains(m),
            total == count_below(notes, n as int),
            total <= n,
        decreases 256 - n,
    {
        assert(present@[(n as u8) as int] == present@[n as int]);
        if present[n] {
            total = total + 1;
        }
        n = n + 1;
    }
    proof {
        lemma_set_u8_len(notes);
    }
    if total == 0 {
        return (0, 0, 0);
    }
    let mut best_offset: i8 = 0;
    let mut best_cov: usize = 0;
    let mut steps: i16 = -4;
    while steps <= 4
        invariant
            -4 <= steps <= 5,
            present@.len() == 256,
            forall|m: u8| #[trigger] present@[m as int] == notes.contains(m),
            candidate_offset(best_offset as int),
            best_offset == 0 || best_offset < steps * 12,
            best_offset != 0 ==> best_cov == octave_coverage(notes, keyboard_notes@, best_offset as int),
            best_offset == 0 && steps <= 0 ==> best_cov == 0,
            best_offset == 0 && steps > 0 ==> best_cov == octave_coverage(notes, keyboard_notes@, 0),
            forall|o: int|
                #[trigger] candidate_offset(o) && o < steps * 12 ==> octave_coverage(notes, keyboard_notes@, o)
                    <= best_cov,
            forall|o: int|
                #[trigger] candidate_offset(o) && o < steps * 12 && octave_coverage(
                    notes,
                    keyboard_notes@,
                    o,
                ) == best_cov ==> abs_int(best_offset as int) < abs_int(o) || (abs_int(
                    best_offset as int,
                ) == abs_int(o) && best_offset <= o),
        decreases 5 - steps,
    {
        let offset: i16 = steps * 12;
        let coverage = count_fitting(&present, keyboard_notes, offset, Ghost(notes));
        let off8 = offset as i8;
        let cur_abs: i16 = if offset < 0 { -offset } else { offset };
        let best_abs: i16 = if best_offset < 0 { -(best_offset as i16) } else { best_offset as i16 };
        if coverage > best_cov || (coverage == best_cov && cur_abs < best_abs) {
            best_offset = off8;
            best_cov = coverage;
        }
        proof {
            assert forall|o: int|
                #[trigger] candidate_offset(o) && o < (steps + 1) * 12 implies octave_coverage(notes, keyboard_notes@, o)
                    <= best_cov by {
                if o >= steps * 12 {
                    assert(o == offset);
                }
            }
            assert forall|o: int|
                #[trigger] candidate_offset(o) && o < (steps + 1) * 12 && octave_coverage(
                    notes,
                    keyboard_notes@,
                    o,
                ) == best_cov implies abs_int(best_offset as int) < abs_int(o) || (abs_int(
                    best_offset as int,
                ) == abs_int(o) && best_offset <= o) by {
                if o >= steps * 12 {
                    assert(o == offset);
                }
            }
        }
        steps = steps + 1;
    }
    (best_offset, best_cov, total)
}

} // verus!

verus! {

// ---------------------------------------------------------------------------
// Practice mode chord grouping
// ---------------------------------------------------------------------------

pub open spec fn saturating_diff(a: u64, b: u64) -> int {
    if a >= b { a - b } else { 0 }
}

/// First index at or after `j` whose start lies more than `threshold` ticks
/// after `base`; the length when there is none.
pub open spec fn group_end(notes: Seq<Note>, base: u64, threshold: u64, j: int) -> int
    decreases notes.len() - j,
{
    if j < 0 || j >= notes.len() {
        notes.len() as int
    } else if saturating_diff(notes[j].start_tick, base) > threshold {
        j
    } else {
        group_end(notes, base, threshold, j + 1)
    }
}

/// The distinct notes among `notes[i..j]` that fit the keyboard at `offset`,
/// in order of first appearance.
pub open spec fn chord_notes(notes: Seq<Note>, keyboard: Set<u8>, offset: i8, i: int, j: int) -> Seq<u8>
    decreases j - i,
{
    if j <= i {
        Seq::empty()
    } else {
        let prev = chord_notes(notes, keyboard, offset, i, j - 1);
        let n = notes[j - 1].midi_note;
        if shift_fits(n, offset as int, keyboard) && !prev.contains(n) {
            prev.push(n)
        } else {
            prev
        }
    }
}

pub open spec fn play_event_view(e: PlayEvent) -> (u64, Seq<u8>, u64) {
    (e.tick, e.notes@, e.duration)
}

pub open spec fn prepend_events(
    a: Seq<(u64, Seq<u8>, u64)>,
    o: Option<Seq<(u64, Seq<u8>, u64)>>,
) -> Option<Seq<(u64, Seq<u8>, u64)>> {
    match o {
        Some(r) => Some(a + r),
        None => None,
    }
}

/// Play events from note `i` on: each group starts at a note, takes every
/// following note that starts within `threshold` ticks of it, and yields its
/// chord (if any note of it fits the keyboard) lasting until the next group,
/// or 480 ticks after the last one. `None` when a duration would not fit in
/// `u64` or be negative.
pub open spec fn play_events_from(
    notes: Seq<Note>,
    keyboard: Set<u8>,
    offset: i8,
    threshold: u64,
    i: int,
) -> Option<Seq<(u64, Seq<u8>, u64)>>
    decreases notes.len() - i,
{
    if i < 0 || i >= notes.len() {
        Some(Seq::empty())
    } else {
        let base = notes[i].start_tick;
        let j = group_end(notes, base, threshold, i);
        let next = if i < j <= notes.len() { j } else { i + 1 };
        let chord = chord_notes(notes, keyboard, offset, i, j);
        let rest = play_events_from(notes, keyboard, offset, threshold, next);
        if chord.len() == 0 {
            rest
        } else {
            let next_tick: int = if j < notes.len() { notes[j].start_tick as int } else { base + 480 };
            if next_tick > u64::MAX || next_tick < base {
                None
            } else {
                prepend_events(seq![(base, chord, (next_tick - base) as u64)], rest)
            }
        }
    }
}

proof fn lemma_group_end(notes: Seq<Note>, base: u64, threshold: u64, j: int)
    requires
        0 <= j <= notes.len(),
    ensures
        j <= group_end(notes, base, threshold, j) <= notes.len(),
        forall|k: int|
            j <= k < group_end(notes, base, threshold, j) ==> saturating_diff(
                notes[k].start_tick,
                base,
            ) <= threshold,
        group_end(notes, base, threshold, j) < notes.len() ==> saturating_diff(
            notes[group_end(notes, base, threshold, j)].start_tick,
            base,
        ) > threshold,
    decreases notes.len() - j,
{
    if j < notes.len() && saturating_diff(notes[j].start_tick, base) <= threshold {
        lemma_group_end(notes, base, threshold, j + 1);
    }
}

fn saturating_diff_exec(a: u64, b: u64) -> (r: u64)
    ensures
        r == saturating_diff(a, b),
{
    if a >= b { a - b } else { 0 }
}

fn contains_note(v: &Vec<u8>, x: u8) -> (r: bool)
    ensures
        r == v@.contains(x),
{
    let mut i: usize = 0;
    while i < v.len()
        invariant
            0 <= i <= v@.len(),
            forall|k: int| 0 <= k < i ==> v@[k] != x,
        decreases v@.len() - i,
    {
        if v[i] == x {
            return true;
        }
        i = i + 1;
    }
    false
}

/// Group notes into PlayEvents: chords of notes starting within `threshold_ticks`
/// ticks of each other that map onto the keyboard at the given octave offset.
pub fn group_play_events(
    notes: &[Note],
    keyboard_notes: &HashSet<u8>,
    octave_offset: i8,
    threshold_ticks: u64,
) -> (r: Vec<PlayEvent>)
    requires
        play_events_from(notes@, keyboard_notes@, octave_offset, threshold_ticks, 0) is Some,
    ensures
        play_events_from(notes@, keyboard_notes@, octave_offset, threshold_ticks, 0) == Some(
            r@.map_values(|e: PlayEvent| play_event_view(e)),
        ),
{
    broadcast use vstd::std_specs::hash::group_hash_axioms;

    let ghost kb = keyboard_notes@;
    let ghost whole = play_events_from(notes@, kb, octave_offset, threshold_ticks, 0);
    let mut events: Vec<PlayEvent> = Vec::new();
    let mut i: usize = 0;
    assert(prepend_events(Seq::empty(), play_events_from(notes@, kb, octave_offset, threshold_ticks, 0)) == whole) by {
        assert(Seq::<(u64, Seq<u8>, u64)>::empty() + whole->0 =~= whole->0);
    }
    while i < notes.len()
        invariant
            0 <= i <= notes@.len(),
            kb == keyboard_notes@,
            whole == play_events_from(notes@, kb, octave_offset, threshold_ticks, 0),
            whole is Some,
            whole == prepend_events(
                events@.map_values(|e: PlayEvent| play_event_view(e)),
                play_events_from(notes@, kb, octave_offset, threshold_ticks, i as int),
            ),
        decreases notes@.len() - i,
    {
        let base = notes[i].start_tick;
        let mut chord: Vec<u8> = Vec::new();
        let mut j: usize = i;
        proof {
            lemma_group_end(notes@, base, threshold_ticks, i as int);
        }
        while j < notes.len() && saturating_diff_exec(notes[j].start_tick, base) <= threshold_ticks
            invariant
                i <= j <= notes@.len(),
                i < notes@.len(),
                base == notes@[i as int].start_tick,
                kb == keyboard_notes@,
                group_end(notes@, base, threshold_ticks, i as int) == group_end(notes@, base, threshold_ticks, j as int),
                chord@ == chord_notes(notes@, kb, octave_offset, i as int, j as int),
            decreases notes@.len() - j,
        {
            let note = notes[j].midi_note;
            let shifted: i16 = note as i16 + octave_offset as i16;
            if 0 <= shifted && shifted <= 127 && keyboard_notes.contains(&(shifted as u8)) {
                if !contains_note(&chord, note) {
                    chord.push(note);
                }
            }
            j = j + 1;
        }
        let ghost g = group_end(notes@, base, threshold_ticks, i as int);
        assert(g == j);
        assert(j > i) by {
            assert(saturating_diff(notes@[i as int].start_tick, base) == 0);
        }
        let ghost rest = play_events_from(notes@, kb, octave_offset, threshold_ticks, j as int);
        if chord.len() > 0 {
            let next_tick: u64 = if j < notes.len() { notes[j].start_tick } else {
                assert(base + 480 <= u64::MAX) by {
                    assert(whole is Some);
                }
                base + 480
            };
            let ev = PlayEvent { tick: base, notes: chord, duration: next_tick - base };
            let ghost before = events@.map_values(|e: PlayEvent| play_event_view(e));
            events.push(ev);
            proof {
                assert(events@.map_values(|e: PlayEvent| play_event_view(e)) =~= before.push(play_event_view(ev)));
                assert(before + seq![play_event_view(ev)] =~= before.push(play_event_view(ev)));
                match rest {
                    Some(rr) => {
                        assert(before + (seq![play_event_view(ev)] + rr) =~= (before + seq![play_event_view(ev)]) + rr);
                    },
                    None => {},
                }
            }
        }
        i = j;
    }
    proof {
        let v = events@.map_values(|e: PlayEvent| play_event_view(e));
        assert(v + Seq::empty() =~= v);
    }
    events
}

} // verus!

verus! {

/// Semitone shift of a track: the song's shift plus the track's own octaves
/// (none when the track has no setting).
pub open spec fn spec_combined_octave_shift(octave_offset: i8, track_octave: Seq<i8>, track: usize) -> i16 {
    (octave_offset + 12 * (if track < track_octave.len() { track_octave[track as int] as int } else { 0 })) as i16
}

/// Semitone shift applied to a note of `track`.
pub fn combined_octave_shift(octave_offset: i8, track_octave: &[i8], track: usize) -> (r: i16)
    ensures
        r == spec_combined_octave_shift(octave_offset, track_octave@, track),
        r == octave_offset + 12 * (if track < track_octave@.len() { track_octave@[track as int] as int } else { 0 }),
{
    let octaves: i16 = if track < track_octave.len() { track_octave[track] as i16 } else { 0 };
    octave_offset as i16 + 12 * octaves
}

/// Tempo (microseconds per beat) of the last tempo change listed at or before
/// `tick`; 120 BPM when there is none.
pub open spec fn tempo_at(map: Seq<TempoChange>, tick: u64, n: int) -> u32
    decreases n,
{
    if n <= 0 || n > map.len() {
        DEFAULT_MICROS_PER_BEAT
    } else if map[n - 1].at_tick <= tick {
        map[n - 1].micros_per_beat
    } else {
        tempo_at(map, tick, n - 1)
    }
}

/// Current tempo in microseconds per beat at a given tick.
pub fn micros_per_beat_at(tick: u64, tempo_map: &[TempoChange]) -> (r: u32)
    ensures
        r == tempo_at(tempo_map@, tick, tempo_map@.len() as int),
{
    let mut i: usize = tempo_map.len();
    while i > 0
        invariant
            0 <= i <= tempo_map@.len(),
            tempo_at(tempo_map@, tick, tempo_map@.len() as int) == tempo_at(tempo_map@, tick, i as int),
        decreases i,
    {
        if tempo_map[i - 1].at_tick <= tick {
            return tempo_map[i - 1].micros_per_beat;
        }
        i = i - 1;
    }
    DEFAULT_MICROS_PER_BEAT
}

/// Whether the clock of a file can be read at every tick of the song, and the
/// playhead searched: a positive tick rate, tempo changes in tick order, song
/// times that fit in `u64`, and a last tick below `u64::MAX`.
pub fn clock_ok(file: &MidiFile) -> (r: bool)
    ensures
        r == (file.clock_ok() && file.total_ticks < u64::MAX),
{
    if file.ticks_per_beat == 0 || file.total_ticks == u64::MAX {
        return false;
    }
    let mut i: usize = 1;
    while i < file.tempo_map.len()
        invariant
            1 <= i,
            i <= file.tempo_map@.len() || file.tempo_map@.len() == 0,
            forall|a: int, b: int| 0 <= a <= b < i && b < file.tempo_map@.len() ==> file.tempo_map@[a].at_tick <= file.tempo_map@[b].at_tick,
        decreases file.tempo_map@.len() - i,
    {
        if file.tempo_map[i - 1].at_tick > file.tempo_map[i].at_tick {
            assert(!tempo_sorted(file.tempo_map@));
            return false;
        }
        i = i + 1;
    }
    assert(tempo_sorted(file.tempo_map@));
    checked_micros_fit(file.total_ticks, file.tempo_map.as_slice(), file.ticks_per_beat)
}

/// Whether `tick_to_micros_abs` can time `tick` without overflow.
#[verifier::rlimit(50)]
#[verifier::spinoff_prover]
pub fn checked_micros_fit(tick: u64, tempo_map: &[TempoChange], ticks_per_beat: u16) -> (r: bool)
    requires
        ticks_per_beat > 0,
    ensures
        r == micros_fit(tempo_map@, tick as int, ticks_per_beat as int),
{
    let ghost map = tempo_map@;
    let ghost tpb = ticks_per_beat as int;
    let ghost n = first_reaching(map, tick as int, 0);
    proof {
        lemma_first_reaching(map, tick as int, 0);
        reveal(micros_fit);
        reveal(micros_at);
    }
    let mut total_us: u64 = 0;
    let mut prev_tick: u64 = 0;
    let mut current_mpb: u64 = 500_000;
    let mut i: usize = 0;
    while i < tempo_map.len()
        invariant_except_break
            i <= n,
        invariant
            0 <= i <= tempo_map.len(),
            map == tempo_map@,
            tpb == ticks_per_beat as int,
            tpb > 0,
            n == first_reaching(map, tick as int, 0),
            i <= n <= map.len(),
            forall|k: int| 0 <= k < n ==> map[k].at_tick < tick,
            n < map.len() ==> map[n].at_tick >= tick,
            forall|j: int|
                0 <= j < i ==> {
                    &&& segment_start(map, j) <= #[trigger] map[j].at_tick
                    &&& (map[j].at_tick - segment_start(map, j)) * segment_tempo(map, j) <= u64::MAX
                    &&& micros_before(map, j + 1, tpb) <= u64::MAX
                },
            prev_tick == segment_start(map, i as int),
            current_mpb == segment_tempo(map, i as int),
            total_us == micros_before(map, i as int, tpb),
        ensures
            i == n,
            prev_tick == segment_start(map, i as int),
            current_mpb == segment_tempo(map, i as int),
            total_us == micros_before(map, i as int, tpb),
        decreases tempo_map.len() - i,
    {
        let tc = tempo_map[i];
        if tc.at_tick >= tick {
            break;
        }
        assert(map[i as int] == tc);
        if tc.at_tick < prev_tick {
            proof {
                reveal(micros_fit);
            }
            return false;
        }
        let span = tc.at_tick - prev_tick;
        match span.checked_mul(current_mpb) {
            None => {
                proof {
                    reveal(micros_fit);
                }
                return false;
            },
            Some(scaled) => {
                match total_us.checked_add(scaled / ticks_per_beat as u64) {
                    None => {
                        proof {
                            reveal(micros_fit);
                        }
                        return false;
                    },
                    Some(t) => {
                        total_us = t;
                    },
                }
            },
        }
        prev_tick = tc.at_tick;
        current_mpb = tc.micros_per_beat as u64;
        i = i + 1;
    }
    proof {
        reveal(micros_fit);
        reveal(micros_at);
    }
    if tick < prev_tick {
        return false;
    }
    let span = tick - prev_tick;
    match span.checked_mul(current_mpb) {
        None => false,
        Some(scaled) => match total_us.checked_add(scaled / ticks_per_beat as u64) {
            None => false,
            Some(_) => true,
        },
    }
}

} // verus!
