use std::collections::HashSet;

use k2_viewer::midi::{EventKind, MidiFile, Note, TempoChange, TimedEvent};
use k2_viewer::playback::{
    find_cursor, fits_keyboard, is_playable, output_channel, tick_at_micros, wire_message,
    all_notes_off_message, ClockStep, Output, PlayEvent, Transport, TransportCmd, WebCmd,
};

fn timeline(events: Vec<TimedEvent>, total_ticks: u64) -> MidiFile {
    MidiFile {
        ticks_per_beat: 480,
        tempo_map: vec![
            TempoChange { at_tick: 0, micros_per_beat: 500_000 },
            TempoChange { at_tick: 960, micros_per_beat: 1_000_000 },
        ],
        time_sig: (4, 4),
        key_sig: 0,
        tracks: Vec::new(),
        events,
        notes: Vec::new(),
        total_ticks,
    }
}

fn note_on(tick: u64, note: u8) -> TimedEvent {
    TimedEvent { tick, track: 0, channel: 0, kind: EventKind::NoteOn { note, velocity: 100 } }
}

fn note_off(tick: u64, note: u8) -> TimedEvent {
    TimedEvent { tick, track: 0, channel: 0, kind: EventKind::NoteOff { note } }
}

#[test]
fn cursor_includes_events_exactly_at_seek_tick() {
    let events = vec![note_on(100, 60), note_off(200, 60)];

    assert_eq!(find_cursor(&events, 100), 0);
    assert_eq!(find_cursor(&events, 101), 1);
    assert_eq!(find_cursor(&events, 200), 1);
    assert_eq!(find_cursor(&events, 201), 2);
}

#[test]
fn clock_inverse_handles_tempo_changes() {
    let file = timeline(Vec::new(), 1_920);

    assert_eq!(tick_at_micros(&file, 500_000), 480);
    assert_eq!(tick_at_micros(&file, 1_500_000), 1_200);
    assert_eq!(tick_at_micros(&file, u64::MAX), file.total_ticks);
}

#[test]
fn output_channel_follows_track_routing() {
    assert_eq!(output_channel(0, 3, &[7]), 7);
    assert_eq!(output_channel(1, 3, &[7]), 3);
}

#[test]
fn drum_channel_always_fits_the_keyboard() {
    let keyboard: HashSet<u8> = HashSet::from([60]);
    assert!(fits_keyboard(35, 9, 0, &keyboard));
    assert!(fits_keyboard(48, 0, 12, &keyboard));
    assert!(!fits_keyboard(61, 0, 0, &keyboard));
    // Shifts clamp to the MIDI range.
    let top: HashSet<u8> = HashSet::from([127]);
    assert!(fits_keyboard(120, 0, 1000, &top));
}

#[test]
fn wire_messages_frame_note_and_controller_bytes() {
    assert_eq!(wire_message(Output::NoteOn(60, 100, 0x13)), Some([0x93, 60, 100]));
    assert_eq!(wire_message(Output::NoteOff(60, 2)), Some([0x82, 60, 0]));
    assert_eq!(wire_message(Output::AllNotesOff), None);
    assert_eq!(all_notes_off_message(5), [0xB5, 0x7B, 0x00]);
}

#[test]
fn a_loaded_timeline_is_playable_and_an_unsorted_one_is_not() {
    assert!(is_playable(&timeline(vec![note_on(0, 60), note_off(10, 60)], 10)));
    assert!(!is_playable(&timeline(vec![note_off(10, 60), note_on(0, 60)], 10)));
    let mut no_rate = timeline(Vec::new(), 10);
    no_rate.ticks_per_beat = 0;
    assert!(!is_playable(&no_rate));
}

fn transport() -> Transport {
    Transport::new(vec![false, false], vec![0, 5], vec![0, 1], 0)
}

#[test]
fn seek_interrupts_a_long_rest() {
    let file = timeline(vec![note_on(0, 60), note_off(4_800, 60)], 4_800);
    let mut t = transport();
    let (outs, restart) = t.command(&file, TransportCmd::Play, 0, false);
    assert!(outs.is_empty() && !restart && t.playing);
    let (outs, restart) = t.command(&file, TransportCmd::SeekTo(4_700), 0, false);
    assert!(restart);
    assert_eq!(
        outs,
        vec![Output::AllNotesOff, Output::ClearAndReport(PlayEvent::Position(4_700))]
    );
    assert_eq!(t.position_tick, 4_700);
    assert_eq!(t.cursor, 1);
}

#[test]
fn stop_then_play_starts_over() {
    let file = timeline(vec![note_on(0, 60), note_off(960, 60)], 960);
    let mut t = transport();
    t.command(&file, TransportCmd::SeekTo(500), 0, true);
    let (outs, _) = t.command(&file, TransportCmd::Stop, 0, true);
    assert_eq!(outs, vec![Output::AllNotesOff, Output::ClearAndReport(PlayEvent::Position(0))]);
    t.command(&file, TransportCmd::Play, 0, true);
    assert!(t.playing);
    assert_eq!((t.position_tick, t.cursor), (0, 0));
}

#[test]
fn pause_reports_the_playhead_at_the_time_of_the_command() {
    let file = timeline(vec![note_on(0, 60), note_off(1_920, 60)], 1_920);
    let mut t = transport();
    t.command(&file, TransportCmd::Play, 0, true);
    let (outs, restart) = t.command(&file, TransportCmd::Pause, 1_500_000, true);
    assert!(restart && !t.playing);
    assert_eq!(t.position_tick, 1_200);
    assert_eq!(outs, vec![Output::AllNotesOff, Output::ClearAndReport(PlayEvent::Position(1_200))]);
    // Pausing while stopped does nothing.
    let (outs, restart) = t.command(&file, TransportCmd::Pause, 0, true);
    assert!(outs.is_empty() && !restart);
}

#[test]
fn playing_past_the_end_starts_over() {
    let file = timeline(vec![note_on(0, 60), note_off(960, 60)], 960);
    let mut t = transport();
    t.command(&file, TransportCmd::SeekTo(960), 0, true);
    t.command(&file, TransportCmd::Play, 0, true);
    assert_eq!((t.position_tick, t.cursor), (0, 0));
}

#[test]
fn events_fire_in_order_then_the_song_ends() {
    let file = timeline(vec![note_on(0, 60), note_off(480, 60)], 480);
    let keyboard: HashSet<u8> = HashSet::from([60]);
    let mut t = transport();
    t.command(&file, TransportCmd::Play, 0, true);
    let outs = t.fire_next(&file, &keyboard, true, false);
    assert_eq!(
        outs,
        vec![Output::NoteOn(60, 100, 0), Output::Report(PlayEvent::NoteOn(60, 0, 0))]
    );
    let outs = t.fire_next(&file, &keyboard, true, true);
    assert_eq!(
        outs,
        vec![
            Output::NoteOff(60, 0),
            Output::Report(PlayEvent::NoteOff(60, 0)),
            Output::Report(PlayEvent::Position(480)),
        ]
    );
    let outs = t.fire_next(&file, &keyboard, true, false);
    assert_eq!(outs, vec![Output::Report(PlayEvent::Done), Output::AllNotesOff]);
    assert!(!t.playing);
    assert_eq!((t.position_tick, t.cursor), (0, 0));
}

#[test]
fn muted_tracks_and_audio_off_stay_silent() {
    let file = timeline(vec![note_on(0, 60)], 10);
    let keyboard: HashSet<u8> = HashSet::from([60]);
    let mut t = transport();
    let outs = t.fire_next(&file, &keyboard, false, false);
    assert_eq!(outs, vec![Output::Report(PlayEvent::NoteOn(60, 0, 0))]);
    let mut t = transport();
    t.command(&file, TransportCmd::SetTrackMuted(0, true), 0, true);
    assert_eq!(t.track_muted, vec![true, false]);
    assert!(t.fire_next(&file, &keyboard, true, false).is_empty());
    // Out-of-range settings are ignored.
    t.command(&file, TransportCmd::SetTrackMuted(9, true), 0, true);
    assert_eq!(t.track_muted, vec![true, false]);
}

#[test]
fn track_routing_changes_only_the_sent_channel() {
    let mut file = timeline(Vec::new(), 10);
    file.events = vec![TimedEvent { tick: 0, track: 1, channel: 2, kind: EventKind::NoteOn { note: 48, velocity: 90 } }];
    let keyboard: HashSet<u8> = HashSet::from([60]);
    let mut t = transport();
    // Track 1 is shifted up an octave and routed to channel 5.
    let outs = t.fire_next(&file, &keyboard, true, false);
    assert_eq!(
        outs,
        vec![Output::NoteOn(48, 90, 5), Output::Report(PlayEvent::NoteOn(48, 1, 2))]
    );
}

#[test]
fn loop_end_wraps_back_to_its_start() {
    let file = timeline(vec![note_on(0, 60), note_on(480, 62), note_off(960, 60)], 960);
    let mut t = transport();
    t.command(&file, TransportCmd::SetLoopRange(Some((480, 960))), 0, true);
    t.command(&file, TransportCmd::Play, 0, true);
    match t.poll_clock(&file, 0) {
        ClockStep::Wait { wait_micros, event_due } => {
            assert_eq!(wait_micros, 0);
            assert!(event_due);
        }
        ClockStep::Wrapped(_) => panic!("loop end not reached yet"),
    }
    t.fire_next(&file, &HashSet::new(), false, false);
    match t.poll_clock(&file, 100_000) {
        ClockStep::Wait { wait_micros, event_due } => {
            assert_eq!(wait_micros, 20_000);
            assert!(!event_due);
        }
        ClockStep::Wrapped(_) => panic!("loop end not reached yet"),
    }
    match t.poll_clock(&file, 1_000_000) {
        ClockStep::Wrapped(outs) => {
            assert_eq!(
                outs,
                vec![Output::AllNotesOff, Output::ClearAndReport(PlayEvent::Position(480))]
            );
        }
        ClockStep::Wait { .. } => panic!("loop end was reached"),
    }
    assert_eq!((t.position_tick, t.cursor), (480, 1));
}

#[test]
fn resuming_mid_note_sounds_the_held_notes() {
    let mut file = timeline(vec![note_on(0, 60), note_off(960, 60)], 960);
    file.notes = vec![
        Note { start_tick: 0, end_tick: 960, midi_note: 60, track: 0, channel: 0, velocity: 80 },
        Note { start_tick: 600, end_tick: 700, midi_note: 64, track: 0, channel: 0, velocity: 80 },
    ];
    let keyboard: HashSet<u8> = HashSet::from([60, 64]);
    let mut t = transport();
    assert!(t.resume(&file, &keyboard, true).is_empty());
    t.command(&file, TransportCmd::SeekTo(480), 0, true);
    assert_eq!(
        t.resume(&file, &keyboard, true),
        vec![Output::NoteOn(60, 80, 0), Output::Report(PlayEvent::NoteOn(60, 0, 0))]
    );
}

#[test]
fn audio_switch_is_stored_and_silences_playback() {
    let file = timeline(Vec::new(), 10);
    let mut t = transport();
    let (outs, _) = t.command(&file, TransportCmd::SetAudio(false), 0, true);
    assert_eq!(outs, vec![Output::StoreAudio(false)]);
    t.command(&file, TransportCmd::Play, 0, true);
    let (outs, _) = t.command(&file, TransportCmd::SetAudio(false), 0, true);
    assert_eq!(outs, vec![Output::StoreAudio(false), Output::AllNotesOff]);
    let (outs, _) = t.command(&file, TransportCmd::LiveNoteOn(60, 100, 1), 0, false);
    assert!(outs.is_empty());
    let (outs, _) = t.command(&file, TransportCmd::LiveNoteOff(60, 1), 0, false);
    assert_eq!(outs, vec![Output::NoteOff(60, 1)]);
}

#[test]
fn browser_timer_fires_due_events_and_finishes() {
    let file = timeline(vec![note_on(0, 60), note_off(480, 60)], 480);
    let keyboard: HashSet<u8> = HashSet::from([60]);
    let mut t = Transport::new(vec![false], Vec::new(), Vec::new(), 0);
    let (outs, reanchor) = t.web_command(&file, &keyboard, WebCmd::Play, 0, true);
    assert!(outs.is_empty() && reanchor);
    let outs = t.web_poll(&file, &keyboard, 100_000, true);
    assert_eq!(
        outs,
        vec![
            Output::Report(PlayEvent::NoteOn(60, 0, 0)),
            Output::NoteOn(60, 100, 0),
            Output::Report(PlayEvent::Position(96)),
        ]
    );
    let outs = t.web_poll(&file, &keyboard, 600_000, true);
    assert_eq!(
        outs,
        vec![
            Output::Report(PlayEvent::NoteOff(60, 0)),
            Output::NoteOff(60, 0),
            Output::Report(PlayEvent::Position(480)),
            Output::AllNotesOff,
            Output::Report(PlayEvent::Done),
        ]
    );
    assert!(!t.playing);
}

#[test]
fn browser_mute_silences_at_once() {
    let file = timeline(Vec::new(), 10);
    let keyboard: HashSet<u8> = HashSet::new();
    let mut t = Transport::new(vec![false], Vec::new(), Vec::new(), 0);
    let (outs, _) = t.web_command(&file, &keyboard, WebCmd::SetTrackMuted(0, true), 0, true);
    assert_eq!(outs, vec![Output::AllNotesOff]);
    let (outs, _) = t.web_command(&file, &keyboard, WebCmd::Pause, 0, true);
    assert_eq!(outs, vec![Output::AllNotesOff]);
}
