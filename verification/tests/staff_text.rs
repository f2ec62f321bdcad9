use std::collections::{HashMap, HashSet};

use k2_viewer::key::{Cluster, KeyId};
use k2_viewer::midi::{Note, TrackInfo};
use k2_viewer::render::{key_palette, track_color, KeyPalette, Rgb};
use k2_viewer::sort::sort_by_tick;
use k2_viewer::staff::{is_sharp, keyboard_range, note_fits, note_name, staff_slot};
use k2_viewer::summary::selection_summary;
use k2_viewer::synth::DRUM_CHANNEL;
use k2_viewer::text::{append_decimal, append_signed, str_contains, str_equal, str_starts_with};

fn note(start: u64, end: u64, midi: u8, track: usize, channel: u8) -> Note {
    Note { start_tick: start, end_tick: end, midi_note: midi, track, channel, velocity: 100 }
}

#[test]
fn staff_slots_count_diatonic_steps_from_middle_c() {
    assert_eq!(staff_slot(60), 0);
    assert_eq!(staff_slot(61), 0);
    assert_eq!(staff_slot(62), 1);
    assert_eq!(staff_slot(64), 2);
    assert_eq!(staff_slot(65), 3);
    assert_eq!(staff_slot(71), 6);
    assert_eq!(staff_slot(72), 7);
    assert_eq!(staff_slot(59), -1);
    assert_eq!(staff_slot(48), -7);
}

#[test]
fn sharps_are_the_black_keys() {
    let sharps: Vec<u8> = (60..72).filter(|&n| is_sharp(n)).collect();
    assert_eq!(sharps, vec![61, 63, 66, 68, 70]);
}

#[test]
fn note_names_carry_their_octave() {
    assert_eq!(note_name(60), "C4");
    assert_eq!(note_name(61), "C#4");
    assert_eq!(note_name(0), "C-1");
    assert_eq!(note_name(127), "G9");
    assert_eq!(note_name(21), "A0");
}

#[test]
fn keyboard_range_spans_lowest_to_highest() {
    let empty: HashSet<u8> = HashSet::new();
    assert_eq!(keyboard_range(&empty), None);
    let notes: HashSet<u8> = [72u8, 48, 60].into_iter().collect();
    assert_eq!(keyboard_range(&notes), Some((48, 72)));
}

#[test]
fn notes_fit_the_drum_pads_or_the_shifted_keyboard() {
    let keyboard: HashSet<u8> = (48u8..=72).collect();
    let mut pads: HashMap<u8, KeyId> = HashMap::new();
    pads.insert(36, KeyId(93));

    assert!(note_fits(&note(0, 10, 36, 0, DRUM_CHANNEL), &keyboard, &pads, 0, &[]));
    assert!(!note_fits(&note(0, 10, 38, 0, DRUM_CHANNEL), &keyboard, &pads, 0, &[]));
    assert!(!note_fits(&note(0, 10, 36, 0, 0), &keyboard, &pads, 0, &[]));
    // One octave up from the song offset brings 36 onto the keyboard.
    assert!(note_fits(&note(0, 10, 36, 0, 0), &keyboard, &pads, 12, &[]));
    // A track octave of -1 takes 84 down to 72.
    assert!(note_fits(&note(0, 10, 84, 1, 0), &keyboard, &pads, 0, &[0, -1]));
    assert!(!note_fits(&note(0, 10, 84, 0, 0), &keyboard, &pads, 0, &[0, -1]));
}

#[test]
fn selection_summary_groups_notes_by_track() {
    let tracks = vec![
        TrackInfo { index: 0, name: Some("Piano".to_string()) },
        TrackInfo { index: 1, name: None },
    ];
    let notes = vec![
        note(0, 100, 64, 1, 0),
        note(0, 100, 60, 0, 0),
        note(50, 150, 67, 0, 0),
        note(500, 600, 72, 0, 0),
    ];
    assert_eq!(
        selection_summary(&notes, &tracks, &[false, false], 0, 100),
        "3 notes · T1 Piano: C4, G4   |   T2 Track: E4"
    );
    assert_eq!(selection_summary(&notes, &tracks, &[false, true], 0, 100), "2 notes · T1 Piano: C4, G4");
    assert_eq!(selection_summary(&notes, &tracks, &[], 520, 520), "1 note · T1 Piano: C5");
    assert_eq!(selection_summary(&notes, &tracks, &[], 300, 400), "No notes in selection");
}

#[test]
fn sorting_by_tick_keeps_equal_ticks_in_order() {
    let ns = vec![note(30, 40, 1, 0, 0), note(10, 20, 2, 0, 0), note(30, 35, 3, 0, 0), note(10, 15, 4, 0, 0)];
    let sorted = sort_by_tick(&ns);
    let order: Vec<u8> = sorted.iter().map(|n| n.midi_note).collect();
    assert_eq!(order, vec![2, 4, 1, 3]);
}

#[test]
fn track_colours_cycle_after_eight_tracks() {
    assert_eq!(track_color(0), Rgb { r: 0x4F, g: 0xC3, b: 0xF7 });
    assert_eq!(track_color(9), Rgb { r: 0xFF, g: 0xB7, b: 0x4D });
}

#[test]
fn key_palettes_follow_cluster_and_lighting() {
    assert_eq!(key_palette(Cluster::Alpha, Some(1)), KeyPalette { fill: track_color(1), text_white: false });
    assert_eq!(
        key_palette(Cluster::Alpha, None),
        KeyPalette { fill: Rgb { r: 0x70, g: 0x62, b: 0x86 }, text_white: true }
    );
    assert_eq!(
        key_palette(Cluster::Alpha, Some(usize::MAX - 1)),
        KeyPalette { fill: Rgb { r: 0xFF, g: 0x3D, b: 0x72 }, text_white: true }
    );
    assert_eq!(
        key_palette(Cluster::Alpha, Some(usize::MAX)),
        KeyPalette { fill: Rgb { r: 0xFF, g: 0xA3, b: 0x55 }, text_white: false }
    );
    assert_eq!(
        key_palette(Cluster::Numpad, Some(0)),
        KeyPalette { fill: Rgb { r: 0x50, g: 0xD4, b: 0xC8 }, text_white: false }
    );
    assert_eq!(
        key_palette(Cluster::Encoder, Some(0)),
        KeyPalette { fill: Rgb { r: 0x1D, g: 0x1B, b: 0x28 }, text_white: true }
    );
}

#[test]
fn text_helpers_compare_and_search() {
    assert!(str_equal("abc", "abc"));
    assert!(!str_equal("abc", "abd"));
    assert!(!str_equal("abc", "ab"));
    assert!(str_starts_with("MIDI error: x", "MIDI error:"));
    assert!(!str_starts_with("MIDI", "MIDI error:"));
    assert!(str_contains("Mozilla/5.0 Firefox/120", "Firefox/"));
    assert!(!str_contains("Chrome", "Firefox/"));
    assert!(str_contains("abc", ""));
}

#[test]
fn decimal_text_of_numbers() {
    let mut s = String::from("n=");
    append_decimal(&mut s, 0);
    s.push(' ');
    append_decimal(&mut s, 18_446_744_073_709_551_615);
    assert_eq!(s, "n=0 18446744073709551615");
    let mut t = String::new();
    append_signed(&mut t, -1);
    t.push(' ');
    append_signed(&mut t, i32::MIN);
    assert_eq!(t, "-1 -2147483648");
}
