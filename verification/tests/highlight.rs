use std::collections::{HashMap, HashSet};

use k2_viewer::controls::{KeyPickMode, PlayState};
use k2_viewer::highlight::{
    all_notes_highlight, board_key_press, closest_key_map, closest_stages, key_sound,
    live_midi_key_for_note, loop_range_for, nearest_keyboard_note, pick_key_nearest,
    selection_highlight, shifted_note, sorted_keyboard_notes, BoardMaps, HeldInput, KeyPress,
    LiveInput, NoteRouting, PlaybackDisplay, LIVE_TRACK, WARNING_TRACK,
};
use k2_viewer::key::KeyId;
use k2_viewer::layout::{build_layout, Layout};
use k2_viewer::midi::Note;
use k2_viewer::playback::PlayEvent;

fn note(start_tick: u64, end_tick: u64, midi_note: u8, track: usize, channel: u8) -> Note {
    Note { start_tick, end_tick, midi_note, track, channel, velocity: 100 }
}

fn maps<'a>(layout: &'a Layout, sorted: &'a [u8]) -> BoardMaps<'a> {
    BoardMaps {
        keys: &layout.keys,
        note_to_all_keys: &layout.note_to_all_keys,
        drum_note_to_key: &layout.drum_note_to_key,
        keyboard_notes_sorted: sorted,
    }
}

#[test]
fn shifted_notes_clamp_to_the_midi_range() {
    assert_eq!(shifted_note(60, 12, &[], 0), 72);
    assert_eq!(shifted_note(60, 0, &[1], 0), 72);
    assert_eq!(shifted_note(120, 12, &[], 0), 127);
    assert_eq!(shifted_note(5, -12, &[], 0), 0);
}

#[test]
fn nearest_keyboard_note_prefers_the_lower_on_a_tie() {
    let sorted = [54u8, 58, 60];
    assert_eq!(nearest_keyboard_note(&sorted, 56), Some(54));
    assert_eq!(nearest_keyboard_note(&sorted, 57), Some(58));
    assert_eq!(nearest_keyboard_note(&sorted, 0), Some(54));
    assert_eq!(nearest_keyboard_note(&sorted, 127), Some(60));
    assert_eq!(nearest_keyboard_note(&sorted, 58), Some(58));
    assert_eq!(nearest_keyboard_note(&[], 58), None);
    let keyboard: HashSet<u8> = HashSet::from([60, 54, 58]);
    assert_eq!(sorted_keyboard_notes(&keyboard), vec![54, 58, 60]);
}

#[test]
fn nearest_pick_follows_what_is_already_lit() {
    let layout = build_layout();
    // 78 sits on row 1 (far left) and row 3.
    let kids = layout.note_to_all_keys[&78].clone();
    let mut placed: HashMap<u32, usize> = HashMap::new();
    assert_eq!(pick_key_nearest(&kids, &layout.keys, &placed), Some(kids[1]));
    placed.insert(layout.keys[13].id.0, 0); // second key of row 1
    assert_eq!(pick_key_nearest(&kids, &layout.keys, &placed), Some(kids[0]));
    assert_eq!(pick_key_nearest(&kids[..1], &layout.keys, &placed), Some(kids[0]));
    assert_eq!(pick_key_nearest(&[], &layout.keys, &placed), None);
}

#[test]
fn live_notes_off_the_keyboard_light_a_warning_key() {
    let layout = build_layout();
    let sorted = sorted_keyboard_notes(&layout.keyboard_notes);
    let b = maps(&layout, &sorted);
    let placed = HashMap::new();
    let drum = live_midi_key_for_note(&b, KeyPickMode::UpDown, &placed, 36, 9);
    assert_eq!(drum, Some((layout.keys[92].id, false)));
    let direct = live_midi_key_for_note(&b, KeyPickMode::UpDown, &placed, 78, 0);
    assert_eq!(direct, Some((layout.note_to_all_keys[&78][0], false)));
    let low = live_midi_key_for_note(&b, KeyPickMode::UpDown, &placed, 20, 0);
    assert_eq!(low, Some((layout.note_to_all_keys[&54][0], true)));
    assert_eq!(live_midi_key_for_note(&b, KeyPickMode::UpDown, &placed, 20, 9), None);
}

#[test]
fn all_notes_view_lights_keys_and_marks_stand_ins() {
    let layout = build_layout();
    let sorted = sorted_keyboard_notes(&layout.keyboard_notes);
    let b = maps(&layout, &sorted);
    let closest = HashMap::new();
    let r = NoteRouting {
        mode: KeyPickMode::LeftRight,
        octave_offset: 0,
        track_octave: &[],
        track_muted: &[false, true],
        closest_key_for_note: &closest,
    };
    let notes = vec![
        note(0, 10, 78, 0, 0),  // on the keyboard
        note(0, 10, 20, 0, 0),  // far below: stand-in on 54
        note(0, 10, 36, 0, 9),  // a drum hit
        note(0, 10, 80, 1, 0),  // muted track
    ];
    let lit = all_notes_highlight(&b, &r, &notes);
    let key78 = *layout.note_to_all_keys[&78].last().unwrap();
    let key54 = *layout.note_to_all_keys[&54].last().unwrap();
    assert_eq!(lit.get(&key78.0), Some(&0));
    assert_eq!(lit.get(&key54.0), Some(&WARNING_TRACK));
    assert_eq!(lit.get(&layout.keys[92].id.0), Some(&0));
    assert_eq!(lit.len(), 3);
}

#[test]
fn a_stand_in_never_recolours_a_lit_key() {
    let layout = build_layout();
    let sorted = sorted_keyboard_notes(&layout.keyboard_notes);
    let b = maps(&layout, &sorted);
    let closest = HashMap::new();
    let r = NoteRouting {
        mode: KeyPickMode::UpDown,
        octave_offset: 0,
        track_octave: &[],
        track_muted: &[],
        closest_key_for_note: &closest,
    };
    let notes = vec![note(0, 10, 53, 3, 0), note(0, 10, 54, 2, 0)];
    let lit = all_notes_highlight(&b, &r, &notes);
    let key54 = layout.note_to_all_keys[&54][0];
    assert_eq!(lit.get(&key54.0), Some(&2));
}

#[test]
fn selection_view_collects_the_ticks_each_key_plays() {
    let layout = build_layout();
    let sorted = sorted_keyboard_notes(&layout.keyboard_notes);
    let b = maps(&layout, &sorted);
    let closest = HashMap::new();
    let r = NoteRouting {
        mode: KeyPickMode::UpDown,
        octave_offset: 0,
        track_octave: &[],
        track_muted: &[],
        closest_key_for_note: &closest,
    };
    let notes = vec![note(0, 100, 60, 0, 0), note(200, 300, 60, 0, 0), note(500, 600, 62, 0, 0)];
    let (lit, ticks) = selection_highlight(&b, &r, &notes, 50, 250);
    let key60 = layout.note_to_all_keys[&60][0];
    assert_eq!(lit.len(), 1);
    assert_eq!(ticks, vec![(key60, vec![0, 200])]);
    // A zero-width selection still catches the notes sounding at that tick.
    let (lit, _) = selection_highlight(&b, &r, &notes, 550, 550);
    assert_eq!(lit.len(), 1);
}

#[test]
fn closest_mode_solves_over_the_sounding_notes() {
    let layout = build_layout();
    let sorted = sorted_keyboard_notes(&layout.keyboard_notes);
    let b = maps(&layout, &sorted);
    let closest = HashMap::new();
    let mut r = NoteRouting {
        mode: KeyPickMode::Closest,
        octave_offset: 0,
        track_octave: &[],
        track_muted: &[],
        closest_key_for_note: &closest,
    };
    let notes = vec![note(0, 10, 78, 0, 0), note(0, 10, 36, 0, 9), note(0, 10, 20, 0, 0)];
    let (pitches, stages) = closest_stages(&b, &r, &notes);
    assert_eq!(pitches, vec![78]);
    assert_eq!(stages, vec![layout.note_to_all_keys[&78].clone()]);
    r.mode = KeyPickMode::UpDown;
    assert!(closest_stages(&b, &r, &notes).0.is_empty());
    let m = closest_key_map(&[78, 80, 78], &[KeyId(1), KeyId(2), KeyId(3)]);
    assert_eq!(m.get(&78), Some(&KeyId(3)));
    assert_eq!(m.get(&80), Some(&KeyId(2)));
    assert_eq!(closest_key_map(&[78, 80], &[KeyId(1)]).len(), 1);
}

#[test]
fn board_keys_sound_their_note_or_drum() {
    let layout = build_layout();
    let melodic = layout.keys[12].id;
    assert_eq!(key_sound(&layout.keys, &layout.drum_note_to_key, melodic, 1), Some((78, 1)));
    let pad = layout.keys[93].id;
    assert_eq!(key_sound(&layout.keys, &layout.drum_note_to_key, pad, 1), Some((37, 9)));
    assert_eq!(key_sound(&layout.keys, &layout.drum_note_to_key, layout.keys[0].id, 1), None);
    // Live octave shifts melodic keys only.
    assert_eq!(board_key_press(&layout.keys, &layout.drum_note_to_key, melodic, 1, 12), KeyPress::Sound(90, 1));
    assert_eq!(board_key_press(&layout.keys, &layout.drum_note_to_key, pad, 1, 12), KeyPress::Sound(37, 9));
    assert_eq!(board_key_press(&layout.keys, &layout.drum_note_to_key, layout.keys[82].id, 1, 0), KeyPress::ToggleWaveform);
    assert_eq!(board_key_press(&layout.keys, &layout.drum_note_to_key, layout.keys[0].id, 1, 0), KeyPress::Silent);
}

#[test]
fn live_input_keeps_a_key_lit_while_any_note_holds_it() {
    let layout = build_layout();
    let sorted = sorted_keyboard_notes(&layout.keyboard_notes);
    let b = maps(&layout, &sorted);
    let mut input = LiveInput::new();
    input.note_on(&b, KeyPickMode::UpDown, 20, 0);
    input.note_on(&b, KeyPickMode::UpDown, 21, 0);
    let stand_in = layout.note_to_all_keys[&54][0];
    assert_eq!(input.held.len(), 2);
    assert_eq!(input.lit.get(&stand_in.0), Some(&WARNING_TRACK));
    input.note_off(20, 0);
    assert_eq!(input.lit.get(&stand_in.0), Some(&WARNING_TRACK));
    input.note_off(21, 0);
    assert!(input.lit.is_empty() && input.held.is_empty());

    input.note_on(&b, KeyPickMode::UpDown, 78, 2);
    input.note_on(&b, KeyPickMode::UpDown, 80, 3);
    let released = input.release(Some(2));
    assert_eq!(released, vec![(2, 78)]);
    assert_eq!(input.held, vec![HeldInput { channel: 3, note: 80, key: layout.note_to_all_keys[&80][0] }]);
    assert_eq!(input.lit.get(&layout.note_to_all_keys[&80][0].0), Some(&LIVE_TRACK));
    assert_eq!(input.release(None), vec![(3, 80)]);
    assert!(input.lit.is_empty());
}

#[test]
fn playback_display_follows_engine_reports() {
    let layout = build_layout();
    let sorted = sorted_keyboard_notes(&layout.keyboard_notes);
    let b = maps(&layout, &sorted);
    let closest = HashMap::new();
    let r = NoteRouting {
        mode: KeyPickMode::UpDown,
        octave_offset: 0,
        track_octave: &[1],
        track_muted: &[],
        closest_key_for_note: &closest,
    };
    let mut display = PlaybackDisplay::new();
    // Track 0 is an octave up: 66 lights the key of 78.
    assert!(!display.apply(&b, &r, false, false, Some(100), PlayEvent::NoteOn(66, 0, 0)));
    let key78 = layout.note_to_all_keys[&78][0];
    assert_eq!(display.highlighted.get(&key78.0), Some(&0));
    display.apply(&b, &r, false, false, Some(100), PlayEvent::NoteOn(36, 0, 9));
    assert_eq!(display.highlighted.len(), 2);
    display.apply(&b, &r, false, false, Some(100), PlayEvent::NoteOff(66, 0));
    display.apply(&b, &r, false, false, Some(100), PlayEvent::NoteOff(36, 9));
    assert!(display.highlighted.is_empty());
    display.apply(&b, &r, false, false, Some(100), PlayEvent::Position(42));
    assert_eq!(display.position_tick, 42);
    // With the looper on, the end of the song starts it again.
    assert!(display.apply(&b, &r, false, true, Some(100), PlayEvent::Done));
    assert_eq!(display.play_state, PlayState::Playing);
    assert_eq!(display.position_tick, 0);
    assert!(!display.apply(&b, &r, false, false, Some(100), PlayEvent::Done));
    assert_eq!(display.play_state, PlayState::Stopped);
}

#[test]
fn loop_range_covers_the_selection_or_the_song() {
    assert_eq!(loop_range_for(false, Some((10, 20)), Some(100)), None);
    assert_eq!(loop_range_for(true, Some((10, 20)), Some(100)), Some((10, 20)));
    assert_eq!(loop_range_for(true, Some((10, 10)), Some(100)), Some((10, 11)));
    assert_eq!(loop_range_for(true, None, Some(100)), Some((0, 100)));
    assert_eq!(loop_range_for(true, None, None), None);
}
