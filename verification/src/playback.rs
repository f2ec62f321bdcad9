use vstd::prelude::*;
use crate::midi::{
    lemma_micros_monotone, micros_at, tick_to_micros_abs, MidiFile, TimedEvent,
};

verus! {

/// Events are listed in order of their ticks.
pub open spec fn events_sorted(events: Seq<TimedEvent>) -> bool {
    forall|i: int, j: int| 0 <= i <= j < events.len() ==> events[i].tick <= events[j].tick
}

/// Index of the first event at or after `tick`: every event before it is
/// earlier than `tick`, every event from it on is at or after `tick` (on
/// events in tick order; on others it is only some index within bounds).
pub fn find_cursor(events: &[TimedEvent], tick: u64) -> (r: usize)
    ensures
        r <= events.len(),
        events_sorted(events@) ==> {
            &&& forall|i: int| 0 <= i < r ==> events@[i].tick < tick
            &&& forall|i: int| r <= i < events.len() ==> events@[i].tick >= tick
        },
{
    let mut low: usize = 0;
    let mut high: usize = events.len();
    while low < high
        invariant
            0 <= low <= high <= events.len(),
            events_sorted(events@) ==> forall|i: int| 0 <= i < low ==> events@[i].tick < tick,
            events_sorted(events@) ==> forall|i: int|
                high <= i < events.len() ==> events@[i].tick >= tick,
        decreases high - low,
    {
        let mid = low + (high - low) / 2;
        if events[mid].tick < tick {
            low = mid + 1;
        } else {
            high = mid;
        }
    }
    low
}

/// The channel actually written to the wire/synth for a track's event. Notes
/// keep whatever channel they were parsed with; only the output byte is
/// remapped through the track's routing, when the track has one.
pub fn output_channel(track: usize, original_channel: u8, track_channel: &[u8]) -> (r: u8)
    ensures
        r == (if track < track_channel@.len() { track_channel@[track as int] } else { original_channel }),
{
    if track < track_channel.len() {
        track_channel[track]
    } else {
        original_channel
    }
}

/// `r` is the playhead at time `micros`: the latest tick of the song (at most
/// its last tick) whose time is not after `micros`.
pub open spec fn is_playhead(file: MidiFile, micros: u64, r: u64) -> bool {
    &&& r <= file.total_ticks
    &&& file.micros_at_tick(r as int) <= micros
    &&& r < file.total_ticks ==> file.micros_at_tick(r + 1) > micros
}

/// The playhead at a given time is unique.
pub proof fn lemma_playhead_unique(file: MidiFile, micros: u64, r1: u64, r2: u64)
    requires
        file.clock_ok(),
        is_playhead(file, micros, r1),
        is_playhead(file, micros, r2),
    ensures
        r1 == r2,
{
    if r1 < r2 {
        lemma_micros_monotone(file.tempo_map@, r1 + 1, r2 as int, file.ticks_per_beat as int);
    } else if r2 < r1 {
        lemma_micros_monotone(file.tempo_map@, r2 + 1, r1 as int, file.ticks_per_beat as int);
    }
}

pub fn tick_at_micros(file: &MidiFile, micros: u64) -> (r: u64)
    requires
        file.clock_ok(),
        file.total_ticks < u64::MAX,
    ensures
        is_playhead(*file, micros, r),
{
    let mut low: u64 = 0;
    let mut high: u64 = file.total_ticks;
    let ghost map = file.tempo_map@;
    let ghost tpb = file.ticks_per_beat as int;
    assert(micros_at(map, 0, tpb) == 0) by {
        crate::midi::lemma_first_reaching(map, 0, 0);
        reveal(micros_at);
        assert(crate::midi::first_reaching(map, 0, 0) == 0);
        assert(crate::midi::segment_start(map, 0) == 0);
        assert(crate::midi::span_micros(0, crate::midi::segment_tempo(map, 0), tpb) == 0);
    }
    while low < high
        invariant
            0 <= low <= high <= file.total_ticks,
            file.clock_ok(),
            file.total_ticks < u64::MAX,
            map == file.tempo_map@,
            tpb == file.ticks_per_beat as int,
            micros_at(map, low as int, tpb) <= micros,
            high < file.total_ticks ==> micros_at(map, high + 1, tpb) > micros,
        decreases high - low,
    {
        let mid = low + (high - low + 1) / 2;
        proof {
            lemma_micros_monotone(map, mid as int, file.total_ticks as int, tpb);
        }
        if tick_to_micros_abs(mid, file.tempo_map.as_slice(), file.ticks_per_beat) <= micros {
            low = mid;
        } else {
            high = mid - 1;
        }
    }
    low
}

} // verus!

verus! {

use crate::text::str_equal;

/// What the playback engine reports to the display.
#[derive(Debug, Clone, Copy, PartialEq, Eq, Structural)]
pub enum PlayEvent {
    /// Note, track index, channel.
    NoteOn(u8, usize, u8),
    /// Note, channel.
    NoteOff(u8, u8),
    Position(u64),
    Done,
}

#[derive(Debug, Clone, PartialEq, Eq)]
pub struct MidiPortInfo {
    pub id: String,
    pub name: String,
}

/// Index of the first port with this id; the number of ports when none has it.
pub open spec fn port_index(ports: Seq<MidiPortInfo>, id: Seq<char>, i: int) -> int
    decreases ports.len() - i,
{
    if i < 0 || i >= ports.len() {
        ports.len() as int
    } else if ports[i].id@ == id {
        i
    } else {
        port_index(ports, id, i + 1)
    }
}

/// The port the MIDI button cycles to: the one after the current port; none
/// after the last one; the first port when no port (or an unknown one) is current.
pub open spec fn next_port(current: Option<Seq<char>>, ports: Seq<MidiPortInfo>) -> Option<Seq<char>> {
    let idx = match current {
        Some(id) => port_index(ports, id, 0),
        None => ports.len() as int,
    };
    if idx < ports.len() {
        if idx + 1 < ports.len() {
            Some(ports[idx + 1].id@)
        } else {
            None
        }
    } else if ports.len() > 0 {
        Some(ports[0].id@)
    } else {
        None
    }
}

proof fn lemma_port_index(ports: Seq<MidiPortInfo>, id: Seq<char>, i: int)
    requires
        0 <= i <= ports.len(),
    ensures
        i <= port_index(ports, id, i) <= ports.len(),
    decreases ports.len() - i,
{
    if i < ports.len() && ports[i].id@ != id {
        lemma_port_index(ports, id, i + 1);
    }
}

pub fn next_web_midi_port(current: Option<&str>, ports: &[MidiPortInfo]) -> (r: Option<String>)
    ensures
        (match r {
            Some(s) => Some(s@),
            None => None,
        }) == next_port(
            match current {
                Some(c) => Some(c@),
                None => None,
            },
            ports@,
        ),
{
    let mut idx: usize = ports.len();
    match current {
        Some(id) => {
            proof {
                lemma_port_index(ports@, id@, 0);
            }
            let mut i: usize = 0;
            while i < ports.len()
                invariant
                    0 <= i <= ports@.len(),
                    port_index(ports@, id@, 0) == port_index(ports@, id@, i as int),
                ensures
                    i == port_index(ports@, id@, 0),
                decreases ports@.len() - i,
            {
                if str_equal(ports[i].id.as_str(), id) {
                    break;
                }
                i = i + 1;
            }
            idx = i;
        },
        None => {},
    }
    if idx < ports.len() {
        if idx + 1 < ports.len() {
            Some(ports[idx + 1].id.clone())
        } else {
            None
        }
    } else if ports.len() > 0 {
        Some(ports[0].id.clone())
    } else {
        None
    }
}

} // verus!

verus! {

use std::collections::HashSet;
use crate::midi::{
    checked_micros_fit, combined_octave_shift, micros_fit, spec_combined_octave_shift, EventKind,
    Note,
};
use crate::staff::clamped_shift;
use crate::synth::DRUM_CHANNEL;

/// A transport command from the user interface.
#[derive(Debug, Clone, Copy)]
pub enum TransportCmd {
    Play,
    Pause,
    Stop,
    SeekTo(u64),
    SetAudio(bool),
    SetTrackMuted(usize, bool),
    SetTrackChannel(usize, u8),
    SetTrackOctave(usize, i8),
    /// (start_tick, end_tick) to repeat, or `None` to play through normally.
    SetLoopRange(Option<(u64, u64)>),
    SetOctaveOffset(i8),
    /// Note, velocity, channel.
    LiveNoteOn(u8, u8, u8),
    /// Note, channel.
    LiveNoteOff(u8, u8),
}

/// What the engine does next, in order.
#[derive(Debug, Clone, Copy, PartialEq, Eq, Structural)]
pub enum Output {
    /// Silence everything: all-notes-off on each of the sixteen channels of
    /// the MIDI port, or the soft synth's own.
    AllNotesOff,
    /// Sound a note (note, velocity, output channel).
    NoteOn(u8, u8, u8),
    /// Release a note (note, output channel).
    NoteOff(u8, u8),
    /// Report an event to the display.
    Report(PlayEvent),
    /// Drop the reports not yet read, then report.
    ClearAndReport(PlayEvent),
    /// Store the shared audio switch.
    StoreAudio(bool),
}

/// The three bytes of a channel message for a sounding output: note-on
/// (0x90) or note-off (0x80, velocity 0) on the channel's low four bits.
pub open spec fn spec_wire_message(out: Output) -> Option<Seq<u8>> {
    match out {
        Output::NoteOn(note, velocity, channel) => Some(seq![(0x90u8 | (channel & 0x0F)) as u8, note, velocity]),
        Output::NoteOff(note, channel) => Some(seq![(0x80u8 | (channel & 0x0F)) as u8, note, 0u8]),
        _ => None,
    }
}

pub fn wire_message(out: Output) -> (r: Option<[u8; 3]>)
    ensures
        match r {
            Some(bytes) => spec_wire_message(out) == Some(bytes@),
            None => spec_wire_message(out) is None,
        },
{
    match out {
        Output::NoteOn(note, velocity, channel) => {
            let r = [0x90u8 | (channel & 0x0F), note, velocity];
            assert(r@ =~= seq![(0x90u8 | (channel & 0x0F)) as u8, note, velocity]);
            Some(r)
        },
        Output::NoteOff(note, channel) => {
            let r = [0x80u8 | (channel & 0x0F), note, 0u8];
            assert(r@ =~= seq![(0x80u8 | (channel & 0x0F)) as u8, note, 0u8]);
            Some(r)
        },
        _ => None,
    }
}

/// The message that silences one channel: controller 123 (all notes off).
pub fn all_notes_off_message(channel: u8) -> (r: [u8; 3])
    requires
        channel < 16,
    ensures
        r@ == seq![(0xB0u8 | channel) as u8, 0x7Bu8, 0u8],
{
    let r = [0xB0u8 | channel, 0x7B, 0x00];
    assert(r@ =~= seq![(0xB0u8 | channel) as u8, 0x7Bu8, 0u8]);
    r
}

/// A note only sounds if it lands on a physical key once shifted. The
/// percussion channel is exempt: its notes pick a drum sound, not a pitch.
pub open spec fn spec_fits_keyboard(note: u8, channel: u8, shift: int, keyboard: Set<u8>) -> bool {
    channel == DRUM_CHANNEL || keyboard.contains(clamped_shift(note, shift))
}

pub fn fits_keyboard(note: u8, channel: u8, shift: i16, keyboard_notes: &HashSet<u8>) -> (r: bool)
    ensures
        r == spec_fits_keyboard(note, channel, shift as int, keyboard_notes@),
{
    broadcast use vstd::std_specs::hash::group_hash_axioms;

    if channel == DRUM_CHANNEL {
        return true;
    }
    let s: i32 = note as i32 + shift as i32;
    let shifted: u8 = if s < 0 {
        0
    } else if s > 127 {
        127
    } else {
        s as u8
    };
    keyboard_notes.contains(&shifted)
}

/// Time of `tick` in the file, or `u64::MAX` where it would not fit in 64 bits.
pub open spec fn time_of(file: MidiFile, tick: u64) -> int {
    if micros_fit(file.tempo_map@, tick as int, file.ticks_per_beat as int) {
        file.micros_at_tick(tick as int)
    } else {
        u64::MAX as int
    }
}

fn micros_or_max(file: &MidiFile, tick: u64) -> (r: u64)
    requires
        file.clock_ok(),
    ensures
        r == time_of(*file, tick),
{
    let fits = if tick <= file.total_ticks {
        proof {
            lemma_micros_monotone(file.tempo_map@, tick as int, file.total_ticks as int, file.ticks_per_beat as int);
        }
        true
    } else {
        checked_micros_fit(tick, file.tempo_map.as_slice(), file.ticks_per_beat)
    };
    if fits {
        tick_to_micros_abs(tick, file.tempo_map.as_slice(), file.ticks_per_beat)
    } else {
        u64::MAX
    }
}

/// `c` is where the playhead at `tick` resumes: the events before it are
/// earlier than `tick`, the ones from it on are not.
pub open spec fn is_cursor(events: Seq<TimedEvent>, tick: u64, c: int) -> bool {
    &&& 0 <= c <= events.len()
    &&& forall|i: int| 0 <= i < c ==> events[i].tick < tick
    &&& forall|i: int| c <= i < events.len() ==> events[i].tick >= tick
}

/// On events in tick order the resume point is unique.
pub proof fn lemma_cursor_unique(events: Seq<TimedEvent>, tick: u64, c1: int, c2: int)
    requires
        is_cursor(events, tick, c1),
        is_cursor(events, tick, c2),
    ensures
        c1 == c2,
{
    if c1 < c2 {
        assert(events[c1].tick >= tick);
    } else if c2 < c1 {
        assert(events[c2].tick >= tick);
    }
}

/// The track is muted (tracks beyond the list are not).
pub open spec fn is_muted(track_muted: Seq<bool>, track: usize) -> bool {
    track < track_muted.len() && track_muted[track as int]
}

/// The channel a track's events are sent on.
pub open spec fn routed_channel(track_channel: Seq<u8>, track: usize, channel: u8) -> u8 {
    if track < track_channel.len() { track_channel[track as int] } else { channel }
}

/// A file the transport can play: a positive tick rate, tempo changes and
/// events in tick order, and a song whose whole length can be timed.
pub open spec fn playable(file: MidiFile) -> bool {
    &&& file.clock_ok()
    &&& file.total_ticks < u64::MAX
    &&& events_sorted(file.events@)
}

pub fn is_playable(file: &MidiFile) -> (r: bool)
    ensures
        r == playable(*file),
{
    if !crate::midi::clock_ok(file) {
        return false;
    }
    let mut i: usize = 1;
    while i < file.events.len()
        invariant
            1 <= i,
            i <= file.events@.len() || file.events@.len() == 0,
            forall|a: int, b: int|
                0 <= a <= b < i && b < file.events@.len() ==> file.events@[a].tick <= file.events@[b].tick,
        decreases file.events@.len() - i,
    {
        if file.events[i - 1].tick > file.events[i].tick {
            assert(!events_sorted(file.events@));
            return false;
        }
        proof {
            assert forall|a: int, b: int|
                0 <= a <= b < i + 1 && b < file.events@.len() implies file.events@[a].tick <= file.events@[b].tick by {
                if b == i && a < i {
                    assert(file.events@[a].tick <= file.events@[i - 1].tick);
                }
            }
        }
        i = i + 1;
    }
    true
}

} // verus!

verus! {

use crate::midi::Note as SongNote;

/// The playback engine's state between steps.
pub struct Transport {
    pub playing: bool,
    /// Index of the next event to fire.
    pub cursor: usize,
    pub position_tick: u64,
    /// (start_tick, end_tick) to repeat.
    pub loop_range: Option<(u64, u64)>,
    pub track_muted: Vec<bool>,
    /// Output channel per track.
    pub track_channel: Vec<u8>,
    /// Octave shift per track.
    pub track_octave: Vec<i8>,
    /// Semitone shift applied to every track.
    pub octave_offset: i8,
}

/// Loop range and per-track settings are the same in both states.
pub open spec fn settings_kept(a: Transport, b: Transport) -> bool {
    &&& a.loop_range == b.loop_range
    &&& a.track_muted@ == b.track_muted@
    &&& a.track_channel@ == b.track_channel@
    &&& a.track_octave@ == b.track_octave@
    &&& a.octave_offset == b.octave_offset
}

/// Playing flag, cursor and playhead are the same in both states.
pub open spec fn clock_kept(a: Transport, b: Transport) -> bool {
    &&& a.playing == b.playing
    &&& a.cursor == b.cursor
    &&& a.position_tick == b.position_tick
}

/// The value list with entry `i` replaced, when there is such an entry.
pub open spec fn set_entry<T>(s: Seq<T>, i: usize, v: T) -> Seq<T> {
    if i < s.len() { s.update(i as int, v) } else { s }
}

/// What a command does to the transport (`old` before, `new` after), what it
/// emits, and whether a playing run must stop and start over (`restart`).
/// `now` is the song time when the command arrives; `audio` the audio switch.
pub open spec fn command_effect(
    old: Transport,
    new: Transport,
    file: MidiFile,
    cmd: TransportCmd,
    now: u64,
    audio: bool,
    outs: Seq<Output>,
    restart: bool,
) -> bool {
    match cmd {
        TransportCmd::Play => {
            &&& settings_kept(old, new)
            &&& new.playing
            &&& outs.len() == 0
            &&& !restart
            &&& if !old.playing && old.position_tick >= file.total_ticks {
                new.position_tick == 0 && new.cursor == 0
            } else {
                new.position_tick == old.position_tick && new.cursor == old.cursor
            }
        },
        TransportCmd::Pause => {
            &&& settings_kept(old, new)
            &&& if old.playing {
                &&& !new.playing
                &&& new.cursor == old.cursor
                &&& is_playhead(file, now, new.position_tick)
                &&& outs == seq![Output::AllNotesOff, Output::ClearAndReport(PlayEvent::Position(new.position_tick))]
                &&& restart
            } else {
                &&& clock_kept(old, new)
                &&& outs.len() == 0
                &&& !restart
            }
        },
        TransportCmd::Stop => {
            &&& settings_kept(old, new)
            &&& !new.playing
            &&& new.position_tick == 0
            &&& new.cursor == 0
            &&& outs == seq![Output::AllNotesOff, Output::ClearAndReport(PlayEvent::Position(0))]
            &&& restart == old.playing
        },
        TransportCmd::SeekTo(t) => {
            &&& settings_kept(old, new)
            &&& new.playing == old.playing
            &&& new.position_tick == if t < file.total_ticks { t } else { file.total_ticks }
            &&& is_cursor(file.events@, new.position_tick, new.cursor as int)
            &&& outs == seq![Output::AllNotesOff, Output::ClearAndReport(PlayEvent::Position(new.position_tick))]
            &&& restart == old.playing
        },
        TransportCmd::SetAudio(v) => {
            &&& settings_kept(old, new)
            &&& clock_kept(old, new)
            &&& outs == if old.playing && !v {
                seq![Output::StoreAudio(v), Output::AllNotesOff]
            } else {
                seq![Output::StoreAudio(v)]
            }
            &&& !restart
        },
        TransportCmd::SetTrackMuted(i, m) => {
            &&& clock_kept(old, new)
            &&& new.track_muted@ == set_entry(old.track_muted@, i, m)
            &&& settings_kept(old, Transport { track_muted: old.track_muted, ..new })
            &&& outs.len() == 0
            &&& !restart
        },
        TransportCmd::SetTrackChannel(i, c) => {
            &&& clock_kept(old, new)
            &&& new.track_channel@ == set_entry(old.track_channel@, i, c)
            &&& settings_kept(old, Transport { track_channel: old.track_channel, ..new })
            &&& outs.len() == 0
            &&& !restart
        },
        TransportCmd::SetTrackOctave(i, o) => {
            &&& clock_kept(old, new)
            &&& new.track_octave@ == set_entry(old.track_octave@, i, o)
            &&& settings_kept(old, Transport { track_octave: old.track_octave, ..new })
            &&& outs.len() == 0
            &&& !restart
        },
        TransportCmd::SetLoopRange(r) => {
            &&& clock_kept(old, new)
            &&& new.loop_range == r
            &&& settings_kept(old, Transport { loop_range: old.loop_range, ..new })
            &&& outs.len() == 0
            &&& !restart
        },
        TransportCmd::SetOctaveOffset(v) => {
            &&& clock_kept(old, new)
            &&& new.octave_offset == v
            &&& settings_kept(old, Transport { octave_offset: old.octave_offset, ..new })
            &&& outs.len() == 0
            &&& !restart
        },
        TransportCmd::LiveNoteOn(note, velocity, channel) => {
            &&& clock_kept(old, new)
            &&& settings_kept(old, new)
            &&& outs == if audio { seq![Output::NoteOn(note, velocity, channel)] } else { seq![] }
            &&& !restart
        },
        TransportCmd::LiveNoteOff(note, channel) => {
            &&& clock_kept(old, new)
            &&& settings_kept(old, new)
            &&& outs == seq![Output::NoteOff(note, channel)]
            &&& !restart
        },
    }
}

impl Transport {
    /// A stopped transport at the start of the song.
    pub fn new(track_muted: Vec<bool>, track_channel: Vec<u8>, track_octave: Vec<i8>, octave_offset: i8) -> (r: Self)
        ensures
            !r.playing,
            r.cursor == 0,
            r.position_tick == 0,
            r.loop_range is None,
            r.track_muted@ == track_muted@,
            r.track_channel@ == track_channel@,
            r.track_octave@ == track_octave@,
            r.octave_offset == octave_offset,
    {
        Transport {
            playing: false,
            cursor: 0,
            position_tick: 0,
            loop_range: None,
            track_muted,
            track_channel,
            track_octave,
            octave_offset,
        }
    }

    /// Applies a command. `now` is the song time (in microseconds) when it
    /// arrives; `audio` the state of the audio switch.
    pub fn command(&mut self, file: &MidiFile, cmd: TransportCmd, now: u64, audio: bool) -> (r: (Vec<Output>, bool))
        requires
            playable(*file),
        ensures
            command_effect(*old(self), *final(self), *file, cmd, now, audio, r.0@, r.1),
    {
        let mut outs: Vec<Output> = Vec::new();
        match cmd {
            TransportCmd::Play => {
                if !self.playing && self.position_tick >= file.total_ticks {
                    self.position_tick = 0;
                    self.cursor = 0;
                }
                self.playing = true;
                (outs, false)
            },
            TransportCmd::Pause => {
                if self.playing {
                    self.position_tick = tick_at_micros(file, now);
                    outs.push(Output::AllNotesOff);
                    outs.push(Output::ClearAndReport(PlayEvent::Position(self.position_tick)));
                    self.playing = false;
                    assert(outs@ =~= seq![Output::AllNotesOff, Output::ClearAndReport(PlayEvent::Position(self.position_tick))]);
                    (outs, true)
                } else {
                    (outs, false)
                }
            },
            TransportCmd::Stop => {
                let restart = self.playing;
                outs.push(Output::AllNotesOff);
                self.position_tick = 0;
                self.cursor = 0;
                outs.push(Output::ClearAndReport(PlayEvent::Position(0)));
                self.playing = false;
                assert(outs@ =~= seq![Output::AllNotesOff, Output::ClearAndReport(PlayEvent::Position(0))]);
                (outs, restart)
            },
            TransportCmd::SeekTo(t) => {
                outs.push(Output::AllNotesOff);
                self.position_tick = if t < file.total_ticks { t } else { file.total_ticks };
                self.cursor = find_cursor(file.events.as_slice(), self.position_tick);
                outs.push(Output::ClearAndReport(PlayEvent::Position(self.position_tick)));
                assert(outs@ =~= seq![Output::AllNotesOff, Output::ClearAndReport(PlayEvent::Position(self.position_tick))]);
                (outs, self.playing)
            },
            TransportCmd::SetAudio(v) => {
                outs.push(Output::StoreAudio(v));
                if self.playing && !v {
                    outs.push(Output::AllNotesOff);
                    assert(outs@ =~= seq![Output::StoreAudio(v), Output::AllNotesOff]);
                } else {
                    assert(outs@ =~= seq![Output::StoreAudio(v)]);
                }
                (outs, false)
            },
            TransportCmd::SetTrackMuted(i, m) => {
                if i < self.track_muted.len() {
                    self.track_muted.set(i, m);
                }
                (outs, false)
            },
            TransportCmd::SetTrackChannel(i, c) => {
                if i < self.track_channel.len() {
                    self.track_channel.set(i, c);
                }
                (outs, false)
            },
            TransportCmd::SetTrackOctave(i, o) => {
                if i < self.track_octave.len() {
                    self.track_octave.set(i, o);
                }
                (outs, false)
            },
            TransportCmd::SetLoopRange(r) => {
                self.loop_range = r;
                (outs, false)
            },
            TransportCmd::SetOctaveOffset(v) => {
                self.octave_offset = v;
                (outs, false)
            },
            TransportCmd::LiveNoteOn(note, velocity, channel) => {
                if audio {
                    outs.push(Output::NoteOn(note, velocity, channel));
                    assert(outs@ =~= seq![Output::NoteOn(note, velocity, channel)]);
                } else {
                    assert(outs@ =~= Seq::<Output>::empty());
                }
                (outs, false)
            },
            TransportCmd::LiveNoteOff(note, channel) => {
                outs.push(Output::NoteOff(note, channel));
                assert(outs@ =~= seq![Output::NoteOff(note, channel)]);
                (outs, false)
            },
        }
    }
}

} // verus!

verus! {

/// The semitone shift of a track's notes under the transport's settings.
pub open spec fn track_shift(st: Transport, track: usize) -> int {
    spec_combined_octave_shift(st.octave_offset, st.track_octave@, track) as int
}

/// A note sounds when audio is on and it lands on the keyboard once shifted.
pub open spec fn sounds(st: Transport, note: u8, track: usize, channel: u8, keyboard: Set<u8>, audio: bool) -> bool {
    audio && spec_fits_keyboard(note, channel, track_shift(st, track), keyboard)
}

/// What resuming at the playhead emits for one note of the song: nothing
/// unless the note is held across the playhead on an unmuted track; then,
/// when it sounds, a note-on on the track's output channel, and always a
/// report of the note-on on the note's own channel.
pub open spec fn held_note_outputs(st: Transport, n: SongNote, keyboard: Set<u8>, audio: bool) -> Seq<Output> {
    if !(n.start_tick < st.position_tick && st.position_tick < n.end_tick) || is_muted(st.track_muted@, n.track) {
        seq![]
    } else {
        let sound = if sounds(st, n.midi_note, n.track, n.channel, keyboard, audio) {
            seq![Output::NoteOn(n.midi_note, n.velocity, routed_channel(st.track_channel@, n.track, n.channel))]
        } else {
            seq![]
        };
        sound.push(Output::Report(PlayEvent::NoteOn(n.midi_note, n.track, n.channel)))
    }
}

/// The outputs of resuming at the playhead for the notes `notes`, in order.
pub open spec fn restore_outputs(st: Transport, notes: Seq<SongNote>, keyboard: Set<u8>, audio: bool) -> Seq<Output>
    decreases notes.len(),
{
    if notes.len() == 0 {
        seq![]
    } else {
        restore_outputs(st, notes.drop_last(), keyboard, audio) + held_note_outputs(st, notes.last(), keyboard, audio)
    }
}

/// What firing one event emits: nothing on a muted track; otherwise, when it
/// sounds, the note on the track's output channel, and always a report on
/// the event's own channel.
pub open spec fn event_outputs(st: Transport, ev: TimedEvent, keyboard: Set<u8>, audio: bool) -> Seq<Output> {
    if is_muted(st.track_muted@, ev.track) {
        seq![]
    } else {
        let out_channel = routed_channel(st.track_channel@, ev.track, ev.channel);
        match ev.kind {
            EventKind::NoteOn { note, velocity } => {
                let sound = if sounds(st, note, ev.track, ev.channel, keyboard, audio) {
                    seq![Output::NoteOn(note, velocity, out_channel)]
                } else {
                    seq![]
                };
                sound.push(Output::Report(PlayEvent::NoteOn(note, ev.track, ev.channel)))
            },
            EventKind::NoteOff { note } => {
                let sound = if sounds(st, note, ev.track, ev.channel, keyboard, audio) {
                    seq![Output::NoteOff(note, out_channel)]
                } else {
                    seq![]
                };
                sound.push(Output::Report(PlayEvent::NoteOff(note, ev.channel)))
            },
        }
    }
}

/// How long the engine may wait for a command, in microseconds: until the
/// next event (or the song's end), no later than the loop end, and at most
/// 20 ms so the playhead stays smooth.
pub open spec fn wait_micros(st: Transport, file: MidiFile, now: u64) -> int {
    let event_us = if st.cursor < file.events@.len() {
        time_of(file, file.events@[st.cursor as int].tick)
    } else {
        time_of(file, file.total_ticks)
    };
    let until_event = if event_us > now { event_us - now } else { 0 };
    let until_loop = match st.loop_range {
        Some((_, end)) => if time_of(file, end) > now { time_of(file, end) - now } else { 0 },
        None => u64::MAX as int,
    };
    let w = if until_event < until_loop { until_event } else { until_loop };
    if w < 20_000 { w } else { 20_000 }
}

/// Time until the next event (or the song's end), zero when it is due.
pub open spec fn until_event_micros(st: Transport, file: MidiFile, now: u64) -> int {
    let event_us = if st.cursor < file.events@.len() {
        time_of(file, file.events@[st.cursor as int].tick)
    } else {
        time_of(file, file.total_ticks)
    };
    if event_us > now { event_us - now } else { 0 }
}

/// One step of the playing clock.
pub enum ClockStep {
    /// The loop end was reached: the transport jumped back to the loop start.
    Wrapped(Vec<Output>),
    /// Wait up to `wait_micros` for a command; `event_due` tells whether the
    /// next event is due once the wait runs out.
    Wait { wait_micros: u64, event_due: bool },
}

impl Transport {
    /// Song time of the playhead, where a playing run is anchored.
    pub fn anchor_micros(&self, file: &MidiFile) -> (r: u64)
        requires
            playable(*file),
        ensures
            r == time_of(*file, self.position_tick),
    {
        micros_or_max(file, self.position_tick)
    }

    /// Resuming play at the playhead (after Play, a seek or a loop wrap): a
    /// seek can land in the middle of held notes, which are sounded again so
    /// playback resumes in the requested musical state.
    pub fn resume(&self, file: &MidiFile, keyboard_notes: &HashSet<u8>, audio: bool) -> (outs: Vec<Output>)
        ensures
            outs@ == if self.position_tick > 0 {
                restore_outputs(*self, file.notes@, keyboard_notes@, audio)
            } else {
                seq![]
            },
    {
        let mut outs: Vec<Output> = Vec::new();
        if self.position_tick == 0 {
            return outs;
        }
        let mut i: usize = 0;
        while i < file.notes.len()
            invariant
                0 <= i <= file.notes@.len(),
                outs@ == restore_outputs(*self, file.notes@.take(i as int), keyboard_notes@, audio),
            decreases file.notes@.len() - i,
        {
            let n = file.notes[i];
            proof {
                assert(file.notes@.take(i + 1).drop_last() =~= file.notes@.take(i as int));
                assert(file.notes@.take(i + 1).last() == n);
            }
            let pos = self.position_tick;
            let muted = i_muted(&self.track_muted, n.track);
            if n.start_tick < pos && pos < n.end_tick && !muted {
                let shift = combined_octave_shift(self.octave_offset, self.track_octave.as_slice(), n.track);
                if audio && fits_keyboard(n.midi_note, n.channel, shift, keyboard_notes) {
                    let out_channel = output_channel(n.track, n.channel, self.track_channel.as_slice());
                    outs.push(Output::NoteOn(n.midi_note, n.velocity, out_channel));
                }
                outs.push(Output::Report(PlayEvent::NoteOn(n.midi_note, n.track, n.channel)));
            }
            proof {
                let prefix = restore_outputs(*self, file.notes@.take(i as int), keyboard_notes@, audio);
                assert(outs@ =~= prefix + held_note_outputs(*self, n, keyboard_notes@, audio));
            }
            i = i + 1;
        }
        assert(file.notes@.take(file.notes@.len() as int) =~= file.notes@);
        outs
    }

    /// The start of each step while playing, at song time `now`: jump back
    /// when the loop end has been reached, or say how long to wait.
    pub fn poll_clock(&mut self, file: &MidiFile, now: u64) -> (r: ClockStep)
        requires
            playable(*file),
        ensures
            match r {
                ClockStep::Wrapped(outs) => old(self).loop_range matches Some((start, end)) && {
                    &&& now >= time_of(*file, end)
                    &&& final(self).position_tick == start
                    &&& is_cursor(file.events@, start, final(self).cursor as int)
                    &&& final(self).playing == old(self).playing
                    &&& settings_kept(*old(self), *final(self))
                    &&& outs@ == seq![Output::AllNotesOff, Output::ClearAndReport(PlayEvent::Position(start))]
                },
                ClockStep::Wait { wait_micros: w, event_due } => {
                    &&& !(old(self).loop_range matches Some((_, end)) && now >= time_of(*file, end))
                    &&& *final(self) == *old(self)
                    &&& w == wait_micros(*old(self), *file, now)
                    &&& event_due == (until_event_micros(*old(self), *file, now) <= w)
                },
            },
    {
        let mut until_loop: u64 = u64::MAX;
        match self.loop_range {
            Some((loop_start, loop_end)) => {
                let loop_end_us = micros_or_max(file, loop_end);
                if now >= loop_end_us {
                    let mut outs: Vec<Output> = Vec::new();
                    outs.push(Output::AllNotesOff);
                    self.position_tick = loop_start;
                    self.cursor = find_cursor(file.events.as_slice(), loop_start);
                    outs.push(Output::ClearAndReport(PlayEvent::Position(loop_start)));
                    assert(outs@ =~= seq![Output::AllNotesOff, Output::ClearAndReport(PlayEvent::Position(loop_start))]);
                    return ClockStep::Wrapped(outs);
                }
                until_loop = loop_end_us - now;
            },
            None => {},
        }
        let event_us = if self.cursor < file.events.len() {
            micros_or_max(file, file.events[self.cursor].tick)
        } else {
            micros_or_max(file, file.total_ticks)
        };
        let until_event: u64 = if event_us > now { event_us - now } else { 0 };
        let mut w: u64 = if until_event < until_loop { until_event } else { until_loop };
        if w > 20_000 {
            w = 20_000;
        }
        ClockStep::Wait { wait_micros: w, event_due: until_event <= w }
    }

    /// The playhead while waiting through a rest, at song time `now`.
    pub fn report_position(&mut self, file: &MidiFile, now: u64) -> (outs: Vec<Output>)
        requires
            playable(*file),
        ensures
            is_playhead(*file, now, final(self).position_tick),
            final(self).playing == old(self).playing,
            final(self).cursor == old(self).cursor,
            settings_kept(*old(self), *final(self)),
            outs@ == seq![Output::Report(PlayEvent::Position(final(self).position_tick))],
    {
        self.position_tick = tick_at_micros(file, now);
        let mut outs: Vec<Output> = Vec::new();
        outs.push(Output::Report(PlayEvent::Position(self.position_tick)));
        assert(outs@ =~= seq![Output::Report(PlayEvent::Position(self.position_tick))]);
        outs
    }

    /// Fires the next event once it is due. Past the last event the song is
    /// over: it reports Done, silences everything and rewinds. `report_due`
    /// says whether the playhead report is due; it then moves to the event.
    pub fn fire_next(&mut self, file: &MidiFile, keyboard_notes: &HashSet<u8>, audio: bool, report_due: bool) -> (outs: Vec<Output>)
        ensures
            settings_kept(*old(self), *final(self)),
            old(self).cursor >= file.events@.len() ==> {
                &&& outs@ == seq![Output::Report(PlayEvent::Done), Output::AllNotesOff]
                &&& final(self).cursor == 0
                &&& final(self).position_tick == 0
                &&& !final(self).playing
            },
            old(self).cursor < file.events@.len() ==> {
                let ev = file.events@[old(self).cursor as int];
                &&& outs@ == event_outputs(*old(self), ev, keyboard_notes@, audio) + if report_due {
                    seq![Output::Report(PlayEvent::Position(ev.tick))]
                } else {
                    seq![]
                }
                &&& final(self).cursor == old(self).cursor + 1
                &&& final(self).position_tick == if report_due { ev.tick } else { old(self).position_tick }
                &&& final(self).playing == old(self).playing
            },
    {
        let mut outs: Vec<Output> = Vec::new();
        if self.cursor >= file.events.len() {
            outs.push(Output::Report(PlayEvent::Done));
            outs.push(Output::AllNotesOff);
            self.cursor = 0;
            self.position_tick = 0;
            self.playing = false;
            assert(outs@ =~= seq![Output::Report(PlayEvent::Done), Output::AllNotesOff]);
            return outs;
        }
        let ev = file.events[self.cursor];
        let muted = i_muted(&self.track_muted, ev.track);
        if !muted {
            let shift = combined_octave_shift(self.octave_offset, self.track_octave.as_slice(), ev.track);
            let out_channel = output_channel(ev.track, ev.channel, self.track_channel.as_slice());
            match ev.kind {
                EventKind::NoteOn { note, velocity } => {
                    if audio && fits_keyboard(note, ev.channel, shift, keyboard_notes) {
                        outs.push(Output::NoteOn(note, velocity, out_channel));
                    }
                    outs.push(Output::Report(PlayEvent::NoteOn(note, ev.track, ev.channel)));
                },
                EventKind::NoteOff { note } => {
                    if audio && fits_keyboard(note, ev.channel, shift, keyboard_notes) {
                        outs.push(Output::NoteOff(note, out_channel));
                    }
                    outs.push(Output::Report(PlayEvent::NoteOff(note, ev.channel)));
                },
            }
        }
        assert(outs@ =~= event_outputs(*old(self), ev, keyboard_notes@, audio));
        if report_due {
            self.position_tick = ev.tick;
            outs.push(Output::Report(PlayEvent::Position(ev.tick)));
        }
        self.cursor = self.cursor + 1;
        outs
    }
}

fn i_muted(track_muted: &Vec<bool>, track: usize) -> (r: bool)
    ensures
        r == is_muted(track_muted@, track),
{
    track < track_muted.len() && track_muted[track]
}

} // verus!

verus! {

/// Muting a track silences it: its events emit nothing, not even reports.
pub proof fn lemma_muted_track_is_silent(st: Transport, ev: TimedEvent, keyboard: Set<u8>, audio: bool)
    requires
        is_muted(st.track_muted@, ev.track),
    ensures
        event_outputs(st, ev, keyboard, audio) == Seq::<Output>::empty(),
{
}

/// Resuming re-sounds a note held across the playhead exactly as firing its
/// note-on event does: the same sound on the same output channel, the same
/// report, and nothing at all on a muted track. A note that is not held
/// across the playhead (one that starts at it or later, or is already over)
/// gives nothing.
pub proof fn lemma_resume_replays_note_on(st: Transport, n: SongNote, keyboard: Set<u8>, audio: bool)
    ensures
        n.start_tick < st.position_tick < n.end_tick ==> held_note_outputs(st, n, keyboard, audio)
            == event_outputs(
            st,
            (TimedEvent {
                tick: n.start_tick,
                track: n.track,
                channel: n.channel,
                kind: EventKind::NoteOn { note: n.midi_note, velocity: n.velocity },
            }),
            keyboard,
            audio,
        ),
        !(n.start_tick < st.position_tick < n.end_tick) ==> held_note_outputs(st, n, keyboard, audio)
            == Seq::<Output>::empty(),
{
}

/// Whether a note's track is heard under the mute flags `muted`.
pub open spec fn on_unmuted_track(muted: Seq<bool>) -> spec_fn(SongNote) -> bool {
    |n: SongNote| !is_muted(muted, n.track)
}

/// Resuming skips muted tracks: a note held across the playhead on a muted
/// track is neither sounded nor reported, so resuming gives exactly what it
/// gives for the song's notes on unmuted tracks alone.
pub proof fn lemma_resume_skips_muted_tracks(st: Transport, notes: Seq<SongNote>, keyboard: Set<u8>, audio: bool)
    ensures
        forall|n: SongNote| is_muted(st.track_muted@, n.track)
            ==> #[trigger] held_note_outputs(st, n, keyboard, audio) == Seq::<Output>::empty(),
        restore_outputs(st, notes, keyboard, audio)
            == restore_outputs(st, notes.filter(on_unmuted_track(st.track_muted@)), keyboard, audio),
    decreases notes.len(),
{
    let pred = on_unmuted_track(st.track_muted@);
    reveal(Seq::filter);
    if notes.len() > 0 {
        lemma_resume_skips_muted_tracks(st, notes.drop_last(), keyboard, audio);
        let kept = notes.filter(pred);
        let kept_before = notes.drop_last().filter(pred);
        let last = notes.last();
        assert(notes.filter(pred) == if pred(last) { kept_before.push(last) } else { kept_before });
        if pred(last) {
            assert(kept.drop_last() =~= kept_before);
            assert(kept.last() == last);
        } else {
            assert(held_note_outputs(st, last, keyboard, audio) == Seq::<Output>::empty());
            assert(restore_outputs(st, notes, keyboard, audio)
                =~= restore_outputs(st, notes.drop_last(), keyboard, audio));
        }
    } else {
        assert(notes.filter(pred) =~= notes);
    }
}

/// Percussion notes always fit: on the drum channel a note picks a sound,
/// whatever the octave shift.
pub proof fn lemma_drum_channel_always_fits(note: u8, shift: int, keyboard: Set<u8>)
    ensures
        spec_fits_keyboard(note, DRUM_CHANNEL, shift, keyboard),
{
}

/// Routing a track to another output channel changes only the channel of
/// what is sounded: the display is told the channel the note was parsed
/// with, whatever the routing.
pub proof fn lemma_routing_only_changes_output_channel(
    st: Transport,
    routing: Vec<u8>,
    ev: TimedEvent,
    keyboard: Set<u8>,
    audio: bool,
)
    ensures
        ({
            let a = event_outputs(st, ev, keyboard, audio);
            let b = event_outputs(Transport { track_channel: routing, ..st }, ev, keyboard, audio);
            &&& a.len() == b.len()
            &&& a.len() > 0 ==> a.last() == b.last()
            &&& a.len() == 2 ==> match (a[0], b[0]) {
                (Output::NoteOn(n1, v1, _), Output::NoteOn(n2, v2, c2)) => n1 == n2 && v1 == v2
                    && c2 == routed_channel(routing@, ev.track, ev.channel),
                (Output::NoteOff(n1, _), Output::NoteOff(n2, c2)) => n1 == n2
                    && c2 == routed_channel(routing@, ev.track, ev.channel),
                _ => false,
            }
        }),
{
}

/// Stop, then Play, starts the song from its beginning.
pub proof fn lemma_stop_then_play_starts_over(
    a: Transport,
    b: Transport,
    c: Transport,
    file: MidiFile,
    now1: u64,
    now2: u64,
    audio: bool,
    outs1: Seq<Output>,
    outs2: Seq<Output>,
    restart1: bool,
    restart2: bool,
)
    requires
        command_effect(a, b, file, TransportCmd::Stop, now1, audio, outs1, restart1),
        command_effect(b, c, file, TransportCmd::Play, now2, audio, outs2, restart2),
    ensures
        c.playing,
        c.position_tick == 0,
        c.cursor == 0,
        settings_kept(a, c),
{
}

/// Seeking twice to the same tick lands where seeking once does.
pub proof fn lemma_seek_is_idempotent(
    a: Transport,
    b: Transport,
    c: Transport,
    file: MidiFile,
    t: u64,
    now1: u64,
    now2: u64,
    audio: bool,
    outs1: Seq<Output>,
    outs2: Seq<Output>,
    restart1: bool,
    restart2: bool,
)
    requires
        command_effect(a, b, file, TransportCmd::SeekTo(t), now1, audio, outs1, restart1),
        command_effect(b, c, file, TransportCmd::SeekTo(t), now2, audio, outs2, restart2),
    ensures
        c.position_tick == b.position_tick,
        c.cursor == b.cursor,
        c.playing == b.playing,
        settings_kept(b, c),
{
    lemma_cursor_unique(file.events@, b.position_tick, b.cursor as int, c.cursor as int);
}

/// Pausing and then playing resumes at the paused playhead, unless the pause
/// came at the very end of the song, which starts it over.
pub proof fn lemma_pause_then_play_resumes(
    a: Transport,
    b: Transport,
    c: Transport,
    file: MidiFile,
    now1: u64,
    now2: u64,
    audio: bool,
    outs1: Seq<Output>,
    outs2: Seq<Output>,
    restart1: bool,
    restart2: bool,
)
    requires
        a.playing,
        command_effect(a, b, file, TransportCmd::Pause, now1, audio, outs1, restart1),
        command_effect(b, c, file, TransportCmd::Play, now2, audio, outs2, restart2),
    ensures
        c.playing,
        b.position_tick < file.total_ticks ==> c.position_tick == b.position_tick && c.cursor == a.cursor,
        b.position_tick == file.total_ticks ==> c.position_tick == 0 && c.cursor == 0,
{
}

/// While playing, the engine wakes at least every 20 ms.
pub proof fn lemma_wait_is_bounded(st: Transport, file: MidiFile, now: u64)
    ensures
        0 <= wait_micros(st, file, now) <= 20_000,
{
}

} // verus!

verus! {

/// A command of the browser build's transport, which the page's animation
/// timer drives rather than a thread of its own.
#[derive(Debug, Clone, Copy)]
pub enum WebCmd {
    Play,
    Pause,
    Stop,
    SeekTo(u64),
    SetAudio(bool),
    SetTrackMuted(usize, bool),
    SetOctaveOffset(i8),
    /// Note, velocity, channel.
    LiveNoteOn(u8, u8, u8),
    /// Note, channel.
    LiveNoteOff(u8, u8),
    /// Another MIDI output (or none) takes over.
    SwitchOutput,
}

/// In the browser build a note sounds when audio is on and it lands on the
/// keyboard shifted by the global offset alone.
pub open spec fn web_sounds(st: Transport, note: u8, channel: u8, keyboard: Set<u8>, audio: bool) -> bool {
    audio && spec_fits_keyboard(note, channel, st.octave_offset as int, keyboard)
}

/// What the browser build emits for one event: nothing on a muted track;
/// otherwise the report first, then the note-on when it sounds, or the
/// note-off in any case. Notes go out on their own channel.
pub open spec fn web_event_outputs(st: Transport, ev: TimedEvent, keyboard: Set<u8>, audio: bool) -> Seq<Output> {
    if is_muted(st.track_muted@, ev.track) {
        seq![]
    } else {
        match ev.kind {
            EventKind::NoteOn { note, velocity } => {
                let report = seq![Output::Report(PlayEvent::NoteOn(note, ev.track, ev.channel))];
                if web_sounds(st, note, ev.channel, keyboard, audio) {
                    report.push(Output::NoteOn(note, velocity, ev.channel))
                } else {
                    report
                }
            },
            EventKind::NoteOff { note } => seq![
                Output::Report(PlayEvent::NoteOff(note, ev.channel)),
                Output::NoteOff(note, ev.channel),
            ],
        }
    }
}

/// The browser build's outputs for one note when resuming at the playhead.
pub open spec fn web_held_note_outputs(st: Transport, n: SongNote, keyboard: Set<u8>, audio: bool) -> Seq<Output> {
    if !(n.start_tick < st.position_tick && st.position_tick < n.end_tick) || is_muted(st.track_muted@, n.track) {
        seq![]
    } else {
        let report = seq![Output::Report(PlayEvent::NoteOn(n.midi_note, n.track, n.channel))];
        if web_sounds(st, n.midi_note, n.channel, keyboard, audio) {
            report.push(Output::NoteOn(n.midi_note, n.velocity, n.channel))
        } else {
            report
        }
    }
}

pub open spec fn web_restore_outputs(st: Transport, notes: Seq<SongNote>, keyboard: Set<u8>, audio: bool) -> Seq<Output>
    decreases notes.len(),
{
    if notes.len() == 0 {
        seq![]
    } else {
        web_restore_outputs(st, notes.drop_last(), keyboard, audio) + web_held_note_outputs(st, notes.last(), keyboard, audio)
    }
}

/// Resuming at the playhead in the browser build; nothing at the start.
pub open spec fn web_resume_outputs(st: Transport, file: MidiFile, keyboard: Set<u8>, audio: bool) -> Seq<Output> {
    if st.position_tick == 0 { seq![] } else { web_restore_outputs(st, file.notes@, keyboard, audio) }
}

/// What a browser command does, what it emits, and whether the clock must be
/// anchored again at the playhead (`reanchor`).
pub open spec fn web_command_effect(
    old: Transport,
    new: Transport,
    file: MidiFile,
    keyboard: Set<u8>,
    cmd: WebCmd,
    now: u64,
    audio: bool,
    outs: Seq<Output>,
    reanchor: bool,
) -> bool {
    match cmd {
        WebCmd::Play => {
            &&& settings_kept(old, new)
            &&& new.playing
            &&& reanchor
            &&& if old.position_tick >= file.total_ticks {
                new.position_tick == 0 && new.cursor == 0
            } else {
                new.position_tick == old.position_tick && new.cursor == old.cursor
            }
            &&& outs == web_resume_outputs(new, file, keyboard, audio)
        },
        WebCmd::Pause => {
            &&& settings_kept(old, new)
            &&& !new.playing
            &&& new.cursor == old.cursor
            &&& !reanchor
            &&& if old.playing {
                &&& is_playhead(file, now, new.position_tick)
                &&& outs == seq![Output::Report(PlayEvent::Position(new.position_tick)), Output::AllNotesOff]
            } else {
                &&& new.position_tick == old.position_tick
                &&& outs == seq![Output::AllNotesOff]
            }
        },
        WebCmd::Stop => {
            &&& settings_kept(old, new)
            &&& !new.playing
            &&& new.position_tick == 0
            &&& new.cursor == 0
            &&& !reanchor
            &&& outs == seq![Output::AllNotesOff, Output::ClearAndReport(PlayEvent::Position(0))]
        },
        WebCmd::SeekTo(t) => {
            &&& settings_kept(old, new)
            &&& new.playing == old.playing
            &&& new.position_tick == if t < file.total_ticks { t } else { file.total_ticks }
            &&& is_cursor(file.events@, new.position_tick, new.cursor as int)
            &&& reanchor
            &&& outs == seq![Output::AllNotesOff] + (if old.playing {
                web_resume_outputs(new, file, keyboard, audio)
            } else {
                seq![]
            }) + seq![Output::ClearAndReport(PlayEvent::Position(new.position_tick))]
        },
        WebCmd::SetAudio(v) => {
            &&& settings_kept(old, new)
            &&& clock_kept(old, new)
            &&& !reanchor
            &&& outs == if !v { seq![Output::StoreAudio(v), Output::AllNotesOff] } else { seq![Output::StoreAudio(v)] }
        },
        WebCmd::SetTrackMuted(i, m) => {
            &&& clock_kept(old, new)
            &&& new.track_muted@ == set_entry(old.track_muted@, i, m)
            &&& settings_kept(old, Transport { track_muted: old.track_muted, ..new })
            &&& !reanchor
            &&& outs == if m { seq![Output::AllNotesOff] } else { seq![] }
        },
        WebCmd::SetOctaveOffset(v) => {
            &&& clock_kept(old, new)
            &&& new.octave_offset == v
            &&& settings_kept(old, Transport { octave_offset: old.octave_offset, ..new })
            &&& !reanchor
            &&& outs.len() == 0
        },
        WebCmd::LiveNoteOn(note, velocity, channel) => {
            &&& clock_kept(old, new)
            &&& settings_kept(old, new)
            &&& !reanchor
            &&& outs == if audio { seq![Output::NoteOn(note, velocity, channel)] } else { seq![] }
        },
        WebCmd::LiveNoteOff(note, channel) => {
            &&& clock_kept(old, new)
            &&& settings_kept(old, new)
            &&& !reanchor
            &&& outs == seq![Output::NoteOff(note, channel)]
        },
        WebCmd::SwitchOutput => {
            &&& clock_kept(old, new)
            &&& settings_kept(old, new)
            &&& !reanchor
            &&& outs == seq![Output::AllNotesOff]
        },
    }
}

/// Index of the first event from `c` on that is not yet due at `now`.
pub open spec fn due_end(file: MidiFile, c: int, now: u64) -> int
    decreases file.events@.len() - c,
{
    if c < 0 || c >= file.events@.len() || time_of(file, file.events@[c].tick) > now {
        c
    } else {
        due_end(file, c + 1, now)
    }
}

/// The outputs of dispatching events `from` up to `to`.
pub open spec fn web_dispatch_outputs(st: Transport, events: Seq<TimedEvent>, from: int, to: int, keyboard: Set<u8>, audio: bool) -> Seq<Output>
    decreases to - from,
{
    if to <= from {
        seq![]
    } else {
        web_dispatch_outputs(st, events, from, to - 1, keyboard, audio) + web_event_outputs(st, events[to - 1], keyboard, audio)
    }
}

impl Transport {
    fn web_resume(&self, file: &MidiFile, keyboard_notes: &HashSet<u8>, audio: bool, outs: &mut Vec<Output>)
        ensures
            final(outs)@ == old(outs)@ + web_resume_outputs(*self, *file, keyboard_notes@, audio),
    {
        if self.position_tick == 0 {
            assert(final(outs)@ =~= old(outs)@ + web_resume_outputs(*self, *file, keyboard_notes@, audio));
            return;
        }
        let ghost start = outs@;
        let mut i: usize = 0;
        while i < file.notes.len()
            invariant
                0 <= i <= file.notes@.len(),
                self.position_tick > 0,
                outs@ == start + web_restore_outputs(*self, file.notes@.take(i as int), keyboard_notes@, audio),
            decreases file.notes@.len() - i,
        {
            let n = file.notes[i];
            proof {
                assert(file.notes@.take(i + 1).drop_last() =~= file.notes@.take(i as int));
                assert(file.notes@.take(i + 1).last() == n);
            }
            let pos = self.position_tick;
            if n.start_tick < pos && pos < n.end_tick && !i_muted(&self.track_muted, n.track) {
                outs.push(Output::Report(PlayEvent::NoteOn(n.midi_note, n.track, n.channel)));
                if audio && fits_keyboard(n.midi_note, n.channel, self.octave_offset as i16, keyboard_notes) {
                    outs.push(Output::NoteOn(n.midi_note, n.velocity, n.channel));
                }
            }
            proof {
                let prefix = web_restore_outputs(*self, file.notes@.take(i as int), keyboard_notes@, audio);
                assert(outs@ =~= start + prefix + web_held_note_outputs(*self, n, keyboard_notes@, audio));
            }
            i = i + 1;
        }
        assert(file.notes@.take(file.notes@.len() as int) =~= file.notes@);
    }

    /// Applies a command of the browser build at song time `now`.
    pub fn web_command(&mut self, file: &MidiFile, keyboard_notes: &HashSet<u8>, cmd: WebCmd, now: u64, audio: bool) -> (r: (Vec<Output>, bool))
        requires
            playable(*file),
        ensures
            web_command_effect(*old(self), *final(self), *file, keyboard_notes@, cmd, now, audio, r.0@, r.1),
    {
        let mut outs: Vec<Output> = Vec::new();
        match cmd {
            WebCmd::Play => {
                if self.position_tick >= file.total_ticks {
                    self.position_tick = 0;
                    self.cursor = 0;
                }
                self.playing = true;
                self.web_resume(file, keyboard_notes, audio, &mut outs);
                assert(outs@ =~= web_resume_outputs(*self, *file, keyboard_notes@, audio));
                (outs, true)
            },
            WebCmd::Pause => {
                if self.playing {
                    self.position_tick = tick_at_micros(file, now);
                    outs.push(Output::Report(PlayEvent::Position(self.position_tick)));
                }
                self.playing = false;
                outs.push(Output::AllNotesOff);
                assert(old(self).playing ==> outs@ =~= seq![Output::Report(PlayEvent::Position(self.position_tick)), Output::AllNotesOff]);
                assert(!old(self).playing ==> outs@ =~= seq![Output::AllNotesOff]);
                (outs, false)
            },
            WebCmd::Stop => {
                self.playing = false;
                self.position_tick = 0;
                self.cursor = 0;
                outs.push(Output::AllNotesOff);
                outs.push(Output::ClearAndReport(PlayEvent::Position(0)));
                assert(outs@ =~= seq![Output::AllNotesOff, Output::ClearAndReport(PlayEvent::Position(0))]);
                (outs, false)
            },
            WebCmd::SeekTo(t) => {
                outs.push(Output::AllNotesOff);
                self.position_tick = if t < file.total_ticks { t } else { file.total_ticks };
                self.cursor = find_cursor(file.events.as_slice(), self.position_tick);
                let ghost before = outs@;
                if self.playing {
                    self.web_resume(file, keyboard_notes, audio, &mut outs);
                }
                outs.push(Output::ClearAndReport(PlayEvent::Position(self.position_tick)));
                proof {
                    let resumed = if old(self).playing {
                        web_resume_outputs(*self, *file, keyboard_notes@, audio)
                    } else {
                        seq![]
                    };
                    assert(outs@ =~= seq![Output::AllNotesOff] + resumed + seq![Output::ClearAndReport(PlayEvent::Position(self.position_tick))]);
                }
                (outs, true)
            },
            WebCmd::SetAudio(v) => {
                outs.push(Output::StoreAudio(v));
                if !v {
                    outs.push(Output::AllNotesOff);
                    assert(outs@ =~= seq![Output::StoreAudio(v), Output::AllNotesOff]);
                } else {
                    assert(outs@ =~= seq![Output::StoreAudio(v)]);
                }
                (outs, false)
            },
            WebCmd::SetTrackMuted(i, m) => {
                if i < self.track_muted.len() {
                    self.track_muted.set(i, m);
                }
                if m {
                    outs.push(Output::AllNotesOff);
                    assert(outs@ =~= seq![Output::AllNotesOff]);
                } else {
                    assert(outs@ =~= Seq::<Output>::empty());
                }
                (outs, false)
            },
            WebCmd::SetOctaveOffset(v) => {
                self.octave_offset = v;
                (outs, false)
            },
            WebCmd::LiveNoteOn(note, velocity, channel) => {
                if audio {
                    outs.push(Output::NoteOn(note, velocity, channel));
                    assert(outs@ =~= seq![Output::NoteOn(note, velocity, channel)]);
                } else {
                    assert(outs@ =~= Seq::<Output>::empty());
                }
                (outs, false)
            },
            WebCmd::LiveNoteOff(note, channel) => {
                outs.push(Output::NoteOff(note, channel));
                assert(outs@ =~= seq![Output::NoteOff(note, channel)]);
                (outs, false)
            },
            WebCmd::SwitchOutput => {
                outs.push(Output::AllNotesOff);
                assert(outs@ =~= seq![Output::AllNotesOff]);
                (outs, false)
            },
        }
    }
}

} // verus!

verus! {

impl Transport {
    /// Dispatches one event in the browser build.
    fn web_dispatch(&self, ev: TimedEvent, keyboard_notes: &HashSet<u8>, audio: bool, outs: &mut Vec<Output>)
        ensures
            final(outs)@ == old(outs)@ + web_event_outputs(*self, ev, keyboard_notes@, audio),
    {
        let ghost start = outs@;
        if i_muted(&self.track_muted, ev.track) {
            assert(outs@ =~= start + web_event_outputs(*self, ev, keyboard_notes@, audio));
            return;
        }
        match ev.kind {
            EventKind::NoteOn { note, velocity } => {
                outs.push(Output::Report(PlayEvent::NoteOn(note, ev.track, ev.channel)));
                if audio && fits_keyboard(note, ev.channel, self.octave_offset as i16, keyboard_notes) {
                    outs.push(Output::NoteOn(note, velocity, ev.channel));
                }
            },
            EventKind::NoteOff { note } => {
                outs.push(Output::Report(PlayEvent::NoteOff(note, ev.channel)));
                outs.push(Output::NoteOff(note, ev.channel));
            },
        }
        assert(outs@ =~= start + web_event_outputs(*self, ev, keyboard_notes@, audio));
    }

    /// One tick of the browser build's timer at song time `now`: fires the
    /// events that are due, reports the playhead, and at the song's end
    /// silences everything, rewinds and reports Done.
    pub fn web_poll(&mut self, file: &MidiFile, keyboard_notes: &HashSet<u8>, now: u64, audio: bool) -> (outs: Vec<Output>)
        requires
            playable(*file),
        ensures
            settings_kept(*old(self), *final(self)),
            !old(self).playing ==> outs@.len() == 0 && clock_kept(*old(self), *final(self)),
            old(self).playing ==> {
                let end = due_end(*file, old(self).cursor as int, now);
                let total_us = file.micros_at_tick(file.total_ticks as int);
                let dispatched = web_dispatch_outputs(*old(self), file.events@, old(self).cursor as int, end, keyboard_notes@, audio);
                if now >= total_us {
                    &&& outs@ == dispatched + seq![
                        Output::Report(PlayEvent::Position(file.total_ticks)),
                        Output::AllNotesOff,
                        Output::Report(PlayEvent::Done),
                    ]
                    &&& !final(self).playing
                    &&& final(self).position_tick == 0
                    &&& final(self).cursor == 0
                } else {
                    &&& outs@ == dispatched + seq![Output::Report(PlayEvent::Position(final(self).position_tick))]
                    &&& is_playhead(*file, now, final(self).position_tick)
                    &&& final(self).playing
                    &&& final(self).cursor == end
                }
            },
    {
        let mut outs: Vec<Output> = Vec::new();
        if !self.playing {
            return outs;
        }
        let ghost st0 = *self;
        let ghost c0 = self.cursor as int;
        let total_us = micros_or_max(file, file.total_ticks);
        proof {
            lemma_micros_monotone(file.tempo_map@, file.total_ticks as int, file.total_ticks as int, file.ticks_per_beat as int);
        }
        while self.cursor < file.events.len()
            invariant_except_break
                due_end(*file, c0, now) == due_end(*file, self.cursor as int, now),
            invariant
                playable(*file),
                0 <= c0 <= self.cursor,
                self.cursor <= file.events@.len() || self.cursor == c0,
                settings_kept(st0, *self),
                self.playing == st0.playing,
                self.position_tick == st0.position_tick,
                outs@ == web_dispatch_outputs(st0, file.events@, c0, self.cursor as int, keyboard_notes@, audio),
            ensures
                due_end(*file, c0, now) == self.cursor as int,
            decreases file.events@.len() - self.cursor,
        {
            let ev = file.events[self.cursor];
            if micros_or_max(file, ev.tick) > now {
                break;
            }
            self.web_dispatch(ev, keyboard_notes, audio, &mut outs);
            self.cursor = self.cursor + 1;
        }
        let clamped = if now < total_us { now } else { total_us };
        self.position_tick = tick_at_micros(file, clamped);
        let p = self.position_tick;
        outs.push(Output::Report(PlayEvent::Position(p)));
        if now >= total_us {
            outs.push(Output::AllNotesOff);
            self.playing = false;
            self.position_tick = 0;
            self.cursor = 0;
            outs.push(Output::Report(PlayEvent::Done));
        }
        proof {
            let dispatched = web_dispatch_outputs(st0, file.events@, c0, due_end(*file, c0, now), keyboard_notes@, audio);
            assert(total_us == file.micros_at_tick(file.total_ticks as int));
            assert(is_playhead(*file, clamped, p));
            if now >= total_us {
                assert(is_playhead(*file, clamped, file.total_ticks));
                lemma_playhead_unique(*file, clamped, p, file.total_ticks);
                assert(outs@ =~= dispatched + seq![
                    Output::Report(PlayEvent::Position(p)),
                    Output::AllNotesOff,
                    Output::Report(PlayEvent::Done),
                ]);
            } else {
                assert(outs@ =~= dispatched + seq![Output::Report(PlayEvent::Position(p))]);
            }
        }
        outs
    }
}

} // verus!

verus! {

/// A duration in whole microseconds, saturating at `u64::MAX`.
pub fn duration_micros(micros: u128) -> (r: u64)
    ensures
        r == if micros < u64::MAX as u128 { micros } else { u64::MAX as u128 },
{
    if micros < u64::MAX as u128 {
        micros as u64
    } else {
        u64::MAX
    }
}

/// The browser build lists no output ports of its own: its MIDI outputs
/// come through the page's Web MIDI access instead.
pub fn list_output_ports() -> (r: Vec<String>)
    ensures
        r@.len() == 0,
{
    Vec::new()
}

} // verus!

verus! {

use crate::text::{append_decimal, decimal, occurs_at, str_contains, str_starts_with};

/// Some port has this id.
pub open spec fn has_port(ports: Seq<MidiPortInfo>, id: Seq<char>) -> bool {
    exists|i: int| 0 <= i < ports.len() && ports[i].id@ == id
}

pub open spec fn opt_text(o: Option<&str>) -> Option<Seq<char>> {
    match o {
        Some(s) => Some(s@),
        None => None,
    }
}

pub open spec fn opt_string(o: Option<String>) -> Option<Seq<char>> {
    match o {
        Some(s) => Some(s@),
        None => None,
    }
}

/// After the port list changes, a port stays chosen while it is still
/// listed; otherwise the first port is chosen when choosing automatically.
pub open spec fn spec_refreshed_port(current: Option<Seq<char>>, ports: Seq<MidiPortInfo>, auto_select: bool) -> Option<Seq<char>> {
    let keep = match current {
        Some(c) => has_port(ports, c),
        None => false,
    };
    if keep {
        current
    } else if auto_select && ports.len() > 0 {
        Some(ports[0].id@)
    } else {
        None
    }
}

pub fn refreshed_port(current: Option<&str>, ports: &[MidiPortInfo], auto_select: bool) -> (r: Option<String>)
    ensures
        opt_string(r) == spec_refreshed_port(opt_text(current), ports@, auto_select),
{
    match current {
        Some(c) => {
            let mut i: usize = 0;
            while i < ports.len()
                invariant
                    0 <= i <= ports@.len(),
                    current == Some(c),
                    forall|j: int| 0 <= j < i ==> ports@[j].id@ != c@,
                decreases ports@.len() - i,
            {
                if crate::text::str_equal(ports[i].id.as_str(), c) {
                    assert(ports@[i as int].id@ == c@);
                    assert(has_port(ports@, c@));
                    return Some(String::from_str(c));
                }
                i = i + 1;
            }
        },
        None => {},
    }
    if auto_select && ports.len() > 0 {
        Some(ports[0].id.clone())
    } else {
        None
    }
}

/// A port is connected again when the choice changed, or when a port is
/// chosen but not connected.
pub fn needs_reconnect(chosen: Option<&str>, current: Option<&str>, connected: bool) -> (r: bool)
    ensures
        r == (opt_text(chosen) != opt_text(current) || (chosen is Some && !connected)),
{
    let same = match (chosen, current) {
        (Some(a), Some(b)) => crate::text::str_equal(a, b),
        (None, None) => true,
        _ => false,
    };
    !same || (chosen.is_some() && !connected)
}

/// "s" unless there is exactly one.
pub open spec fn plural(n: nat) -> Seq<char> {
    if n == 1 { seq![] } else { "s"@ }
}

/// The status line after the ports are listed: no devices, or the device
/// count (unless an error is showing, which stays).
pub open spec fn spec_ports_status(inputs: nat, outputs: nat, status: Option<Seq<char>>) -> Option<Seq<char>> {
    if inputs == 0 && outputs == 0 {
        Some("MIDI access granted — no devices found"@)
    } else if status matches Some(s) && occurs_at(s, "MIDI error:"@, 0) {
        None
    } else {
        Some("MIDI connected · "@ + decimal(inputs) + " input"@ + plural(inputs) + " · "@ + decimal(outputs) + " output"@ + plural(outputs))
    }
}

/// The new status line, or none to keep the current one.
pub fn ports_status(inputs: usize, outputs: usize, status: Option<&str>) -> (r: Option<String>)
    ensures
        opt_string(r) == spec_ports_status(inputs as nat, outputs as nat, opt_text(status)),
{
    if inputs == 0 && outputs == 0 {
        return Some(String::from_str("MIDI access granted — no devices found"));
    }
    match status {
        Some(s) => {
            if str_starts_with(s, "MIDI error:") {
                return None;
            }
        },
        None => {},
    }
    let mut text = String::from_str("MIDI connected · ");
    append_decimal(&mut text, inputs as u64);
    text.append(" input");
    if inputs != 1 {
        text.append("s");
    }
    text.append(" · ");
    append_decimal(&mut text, outputs as u64);
    text.append(" output");
    if outputs != 1 {
        text.append("s");
    }
    proof {
        reveal_strlit("s");
    }
    assert(text@ =~= "MIDI connected · "@ + decimal(inputs as nat) + " input"@ + plural(inputs as nat) + " · "@
        + decimal(outputs as nat) + " output"@ + plural(outputs as nat));
    Some(text)
}

/// The status shown when Web MIDI access fails. Firefox for Android has no
/// Web MIDI; desktop Firefox gates it behind a site-permission add-on; any
/// other browser's error is shown as it is.
pub open spec fn spec_access_error_status(user_agent: Seq<char>, error: Seq<char>) -> Seq<char> {
    let firefox = exists|at: int| occurs_at(user_agent, "Firefox/"@, at);
    let android = exists|at: int| occurs_at(user_agent, "Android"@, at);
    if firefox && android {
        "MIDI error: Firefox for Android does not support Web MIDI"@
    } else if firefox {
        "MIDI error: connect the device before starting Firefox, then approve its MIDI site-permission add-on"@
    } else {
        "MIDI error: "@ + error
    }
}

pub fn midi_access_error_status(user_agent: &str, error: &str) -> (r: String)
    ensures
        r@ == spec_access_error_status(user_agent@, error@),
{
    let firefox = str_contains(user_agent, "Firefox/");
    let android = str_contains(user_agent, "Android");
    if firefox && android {
        String::from_str("MIDI error: Firefox for Android does not support Web MIDI")
    } else if firefox {
        String::from_str(
            "MIDI error: connect the device before starting Firefox, then approve its MIDI site-permission add-on",
        )
    } else {
        let mut s = String::from_str("MIDI error: ");
        s.append(error);
        s
    }
}

} // verus!

verus! {

/// The clock's inverse gives back the tick it was asked about: the playhead
/// at the time of tick `t` is at `t` or later (later only across ticks that
/// take no time), and never before it; it is `t` itself when the tick after
/// `t` takes time (or `t` is the last tick).
pub proof fn lemma_playhead_at_tick_time(file: MidiFile, t: u64, p: u64)
    requires
        file.clock_ok(),
        t <= file.total_ticks,
        0 <= file.micros_at_tick(t as int) <= u64::MAX,
        is_playhead(file, file.micros_at_tick(t as int) as u64, p),
    ensures
        p >= t,
        file.micros_at_tick(p as int) == file.micros_at_tick(t as int),
        (t == file.total_ticks || file.micros_at_tick(t + 1) > file.micros_at_tick(t as int)) ==> p == t,
{
    if p > t && t < file.total_ticks {
        lemma_micros_monotone(file.tempo_map@, t + 1, p as int, file.ticks_per_beat as int);
    }
    if p < t {
        lemma_micros_monotone(file.tempo_map@, p + 1, t as int, file.ticks_per_beat as int);
    }
    lemma_micros_monotone(file.tempo_map@, t as int, p as int, file.ticks_per_beat as int);
}

} // verus!
