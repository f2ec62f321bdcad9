use std::collections::HashSet;

use k2_viewer::midi::{
    best_octave_offset, checked_micros_fit, clock_ok, combined_octave_shift, group_play_events,
    load_bytes, micros_per_beat_at, pair_notes, tick_to_micros_abs, EventKind, MidiFile, Note,
    TempoChange, TimedEvent,
};

/// A Standard MIDI File with one track holding `track` (already encoded
/// delta-time events, without the end-of-track event).
fn smf(division: [u8; 2], tracks: &[&[u8]]) -> Vec<u8> {
    let mut bytes = b"MThd".to_vec();
    bytes.extend_from_slice(&[0, 0, 0, 6, 0, 1, 0, tracks.len() as u8, division[0], division[1]]);
    for track in tracks {
        let mut body = track.to_vec();
        body.extend_from_slice(&[0x00, 0xFF, 0x2F, 0x00]);
        bytes.extend_from_slice(b"MTrk");
        bytes.extend_from_slice(&(body.len() as u32).to_be_bytes());
        bytes.extend_from_slice(&body);
    }
    bytes
}

fn on(tick: u64, track: usize, channel: u8, note: u8) -> TimedEvent {
    TimedEvent { tick, track, channel, kind: EventKind::NoteOn { note, velocity: 100 } }
}

fn off(tick: u64, track: usize, channel: u8, note: u8) -> TimedEvent {
    TimedEvent { tick, track, channel, kind: EventKind::NoteOff { note } }
}

#[test]
fn loads_notes_tempo_and_names_from_a_file() {
    let track: &[u8] = &[
        0x00, 0xFF, 0x03, 0x04, b'L', b'e', b'a', b'd', // track name
        0x00, 0xFF, 0x51, 0x03, 0x07, 0xA1, 0x20, // 500 000 us per beat
        0x00, 0xFF, 0x58, 0x04, 0x03, 0x03, 0x18, 0x08, // 3/8
        0x00, 0xFF, 0x59, 0x02, 0xFE, 0x00, // two flats
        0x00, 0x90, 60, 100, // C4 on
        0x83, 0x60, 0x80, 60, 0, // 480 ticks later, off
        0x00, 0x91, 64, 0, // velocity zero on channel 1 is a note-off
    ];
    let file = load_bytes(&smf([0x01, 0xE0], &[track])).expect("valid file");
    assert_eq!(file.ticks_per_beat, 480);
    assert_eq!(file.time_sig, (3, 8));
    assert_eq!(file.key_sig, -2);
    assert_eq!(file.tracks.len(), 1);
    assert_eq!(file.tracks[0].name.as_deref(), Some("Lead"));
    assert_eq!(file.tempo_map.len(), 1);
    assert_eq!(file.tempo_map[0].micros_per_beat, 500_000);
    assert_eq!(file.events.len(), 3);
    assert_eq!(file.events[0], on(0, 0, 0, 60));
    assert_eq!(file.events[1], off(480, 0, 0, 60));
    assert_eq!(file.events[2], off(480, 0, 1, 64));
    assert_eq!(file.total_ticks, 480);
    assert_eq!(
        file.notes,
        vec![Note { start_tick: 0, end_tick: 480, midi_note: 60, track: 0, channel: 0, velocity: 100 }]
    );
}

#[test]
fn files_without_tempo_play_at_120_bpm() {
    let track: &[u8] = &[0x00, 0x90, 60, 100, 0x60, 0x80, 60, 0];
    let file = load_bytes(&smf([0x00, 0x60], &[track])).expect("valid file");
    assert_eq!(file.tempo_map.len(), 1);
    assert_eq!(file.tempo_map[0].at_tick, 0);
    assert_eq!(file.tempo_map[0].micros_per_beat, 500_000);
    assert_eq!(file.time_sig, (4, 4));
}

#[test]
fn a_late_first_tempo_gets_a_default_before_it() {
    let track: &[u8] = &[0x60, 0xFF, 0x51, 0x03, 0x0F, 0x42, 0x40];
    let file = load_bytes(&smf([0x00, 0x60], &[track])).expect("valid file");
    assert_eq!(file.tempo_map.len(), 2);
    assert_eq!(file.tempo_map[0].at_tick, 0);
    assert_eq!(file.tempo_map[0].micros_per_beat, 500_000);
    assert_eq!(file.tempo_map[1].at_tick, 96);
    assert_eq!(file.tempo_map[1].micros_per_beat, 1_000_000);
}

#[test]
fn events_of_several_tracks_merge_in_time_order() {
    let first: &[u8] = &[0x10, 0x90, 60, 100];
    let second: &[u8] = &[0x08, 0x92, 50, 90, 0x08, 0x92, 52, 90];
    let file = load_bytes(&smf([0x00, 0x60], &[first, second])).expect("valid file");
    let ticks: Vec<(u64, usize)> = file.events.iter().map(|e| (e.tick, e.track)).collect();
    // At tick 16 the first track's event stays ahead of the second's.
    assert_eq!(ticks, vec![(8, 1), (16, 0), (16, 1)]);
    // Notes that never end are closed at the last event.
    assert!(file.notes.iter().all(|n| n.end_tick == 16));
}

#[test]
fn timecode_division_converts_to_ticks_per_beat() {
    // 25 frames per second, 40 subframes: 1000 ticks per beat.
    let empty: &[u8] = &[];
    let file = load_bytes(&smf([0xE7, 40], &[empty])).expect("valid file");
    assert_eq!(file.ticks_per_beat, 1000);
    // 29.97 drop-frame, 80 subframes: 29.97 * 80 = 2397.6, truncated.
    let file = load_bytes(&smf([0xE3, 80], &[empty])).expect("valid file");
    assert_eq!(file.ticks_per_beat, 2397);
}

#[test]
fn malformed_files_report_a_parse_error() {
    let err = load_bytes(b"not a midi file").unwrap_err();
    assert!(err.starts_with("parse error: "), "{err}");
    assert!(err.len() > "parse error: ".len());
    let err = load_bytes(&[]).unwrap_err();
    assert!(err.starts_with("parse error: "), "{err}");
}

#[test]
fn notes_pair_with_the_next_note_off_of_their_channel() {
    let events = vec![
        on(0, 0, 0, 60),
        on(10, 1, 1, 60),
        off(20, 0, 1, 60),
        off(30, 0, 0, 60),
        on(40, 0, 0, 62),
    ];
    let notes = pair_notes(&events, 100);
    assert_eq!(
        notes,
        vec![
            Note { start_tick: 0, end_tick: 30, midi_note: 60, track: 0, channel: 0, velocity: 100 },
            Note { start_tick: 10, end_tick: 20, midi_note: 60, track: 1, channel: 1, velocity: 100 },
            Note { start_tick: 40, end_tick: 100, midi_note: 62, track: 0, channel: 0, velocity: 100 },
        ]
    );
}

fn file_with(events: Vec<TimedEvent>) -> MidiFile {
    MidiFile {
        ticks_per_beat: 480,
        tempo_map: vec![TempoChange { at_tick: 0, micros_per_beat: 500_000 }],
        time_sig: (4, 4),
        key_sig: 0,
        tracks: Vec::new(),
        events,
        notes: Vec::new(),
        total_ticks: 0,
    }
}

#[test]
fn best_octave_prefers_coverage_then_small_shifts() {
    let keyboard: HashSet<u8> = (60..=72).collect();
    // Notes an octave below the keyboard fit once shifted up 12.
    let file = file_with(vec![on(0, 0, 0, 48), on(1, 0, 0, 50), on(2, 0, 0, 55)]);
    assert_eq!(best_octave_offset(&file, &keyboard), (12, 3, 3));
    // Notes that fit in place keep offset 0 even when another shift ties.
    let file = file_with(vec![on(0, 0, 0, 60)]);
    assert_eq!(best_octave_offset(&file, &keyboard), (0, 1, 1));
    // No note-ons at all.
    let file = file_with(vec![off(0, 0, 0, 60)]);
    assert_eq!(best_octave_offset(&file, &keyboard), (0, 0, 0));
}

fn note(start_tick: u64, midi_note: u8) -> Note {
    Note { start_tick, end_tick: start_tick + 10, midi_note, track: 0, channel: 0, velocity: 90 }
}

#[test]
fn chords_group_notes_starting_close_together() {
    let keyboard: HashSet<u8> = HashSet::from([60, 64, 67, 72]);
    let notes = vec![note(0, 60), note(5, 64), note(5, 60), note(100, 67), note(200, 50), note(300, 72)];
    let events = group_play_events(&notes, &keyboard, 0, 10);
    let view: Vec<(u64, Vec<u8>, u64)> = events.into_iter().map(|e| (e.tick, e.notes, e.duration)).collect();
    assert_eq!(
        view,
        vec![(0, vec![60, 64], 100), (100, vec![67], 100), (300, vec![72], 480)]
    );
}

#[test]
fn clock_counts_tempo_segments() {
    let map = vec![
        TempoChange { at_tick: 0, micros_per_beat: 500_000 },
        TempoChange { at_tick: 960, micros_per_beat: 1_000_000 },
    ];
    assert_eq!(tick_to_micros_abs(0, &map, 480), 0);
    assert_eq!(tick_to_micros_abs(480, &map, 480), 500_000);
    assert_eq!(tick_to_micros_abs(960, &map, 480), 1_000_000);
    assert_eq!(tick_to_micros_abs(1200, &map, 480), 1_500_000);
    assert_eq!(micros_per_beat_at(959, &map), 500_000);
    assert_eq!(micros_per_beat_at(960, &map), 1_000_000);
    assert_eq!(micros_per_beat_at(5, &[]), 500_000);
    assert!(checked_micros_fit(1200, &map, 480));
    assert!(!checked_micros_fit(u64::MAX, &map, 1));
}

#[test]
fn clock_check_rejects_files_it_cannot_time() {
    let mut file = file_with(Vec::new());
    file.total_ticks = 1000;
    assert!(clock_ok(&file));
    file.ticks_per_beat = 0;
    assert!(!clock_ok(&file));
    let mut file = file_with(Vec::new());
    file.tempo_map.push(TempoChange { at_tick: 0, micros_per_beat: 1 });
    file.tempo_map.insert(0, TempoChange { at_tick: 5, micros_per_beat: 1 });
    assert!(!clock_ok(&file));
}

#[test]
fn track_octaves_add_to_the_song_offset() {
    assert_eq!(combined_octave_shift(2, &[1, -1], 0), 14);
    assert_eq!(combined_octave_shift(2, &[1, -1], 1), -10);
    assert_eq!(combined_octave_shift(-3, &[1], 5), -3);
}
