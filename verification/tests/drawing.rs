use std::collections::{HashMap, HashSet};

use k2_viewer::key::{Cluster, KeyId};
use k2_viewer::layout::build_layout;
use k2_viewer::midi::Note;
use k2_viewer::render::{key_face, key_palette, play_order_badge, Rgb};
use k2_viewer::staff::{
    bar_ticks, foreground_order, ledger_slots, staff_notes, ticks_per_bar, visible_window,
};

fn note(start: u64, end: u64, midi: u8, track: usize) -> Note {
    Note { start_tick: start, end_tick: end, midi_note: midi, track, channel: 0, velocity: 90 }
}

#[test]
fn bars_follow_the_time_signature() {
    assert_eq!(ticks_per_bar(480, (4, 4)), 1920);
    assert_eq!(ticks_per_bar(480, (6, 8)), 1440);
    assert_eq!(ticks_per_bar(480, (3, 0)), 5760);
    assert_eq!(bar_ticks(1000, 5000, 1920), vec![0, 1920, 3840]);
    assert_eq!(bar_ticks(u64::MAX - 5, u64::MAX, 4), vec![u64::MAX - 7, u64::MAX - 3]);
}

#[test]
fn the_window_runs_three_beats_behind_and_thirteen_ahead() {
    assert_eq!(visible_window(10_000, 480), (8_560, 16_240));
    assert_eq!(visible_window(100, 480), (0, 6_340));
}

#[test]
fn ledger_lines_reach_from_the_staff_to_the_note() {
    assert_eq!(ledger_slots(5), Vec::<i32>::new());
    assert_eq!(ledger_slots(11), Vec::<i32>::new());
    assert_eq!(ledger_slots(12), vec![12]);
    assert_eq!(ledger_slots(15), vec![12, 14]);
    assert_eq!(ledger_slots(0), vec![0]);
    assert_eq!(ledger_slots(-3), vec![0, -2]);
    assert_eq!(ledger_slots(1), Vec::<i32>::new());
}

#[test]
fn the_staff_plots_visible_unmuted_notes() {
    let notes = vec![
        note(0, 100, 60, 0),
        note(50, 400, 61, 1),
        note(500, 600, 84, 0),
        note(5000, 5100, 60, 0),
    ];
    let keyboard: HashSet<u8> = (48u8..=72).collect();
    let pads: HashMap<u8, KeyId> = HashMap::new();
    let plan = staff_notes(&notes, 200, 0, 1000, &[false, false], &keyboard, &pads, 0, &[]);
    assert_eq!(plan.len(), 3);
    assert_eq!(plan[0].index, 0);
    assert!(plan[0].is_past && !plan[0].is_active && plan[0].fits && plan[0].stem_up);
    assert!(!plan[0].sharp);
    assert_eq!(plan[1].slot, 0);
    assert!(plan[1].is_active && plan[1].sharp);
    assert_eq!(plan[2].slot, 14);
    assert!(!plan[2].fits && !plan[2].stem_up);

    let muted = staff_notes(&notes, 200, 0, 1000, &[false, true], &keyboard, &pads, 0, &[]);
    assert_eq!(muted.iter().map(|n| n.index).collect::<Vec<_>>(), vec![0, 2]);

    // Sounding notes are painted last.
    assert_eq!(foreground_order(&plan), vec![0, 2, 1]);
}

#[test]
fn key_faces_take_projected_labels_and_the_brightest_light() {
    let layout = build_layout();
    let key = layout.keys.iter().find(|k| k.cluster == Cluster::Alpha && k.midi_note.is_some()).unwrap();
    let id = key.id.0;
    let mut highlighted = HashMap::new();
    let selected = HashSet::new();
    let mut pressed = HashSet::new();

    let face = key_face(key, None, &highlighted, &selected, &pressed, None, false, &layout.drum_note_to_key);
    assert_eq!(face.lit_track, None);
    assert_eq!(face.primary, key.label);

    pressed.insert(id);
    let face = key_face(key, None, &highlighted, &selected, &pressed, None, false, &layout.drum_note_to_key);
    assert_eq!(face.lit_track, Some(usize::MAX));

    highlighted.insert(id, 2usize);
    let mut overlay = HashMap::new();
    let face = key_face(key, Some(&overlay), &highlighted, &selected, &pressed, None, false, &layout.drum_note_to_key);
    assert_eq!(face.lit_track, Some(2));
    overlay.insert(id, 5usize);
    let mut labels = HashMap::new();
    labels.insert(id, "Q".to_string());
    let face = key_face(key, Some(&overlay), &highlighted, &selected, &pressed, Some(&labels), false, &layout.drum_note_to_key);
    assert_eq!(face.lit_track, Some(5));
    assert_eq!(face.palette, key_palette(Cluster::Alpha, Some(5)));
    assert_eq!(face.primary, "Q");
    assert_eq!(face.secondary.as_deref(), Some(key.label));
}

#[test]
fn drum_pads_show_their_note_symbol() {
    let layout = build_layout();
    let (&note, &pad) = layout.drum_note_to_key.iter().next().unwrap();
    let key = layout.keys.iter().find(|k| k.id == pad).unwrap();
    let none = HashMap::new();
    let empty = HashSet::new();
    let face = key_face(key, None, &none, &empty, &empty, None, true, &layout.drum_note_to_key);
    assert_eq!(face.drum_note, Some(note));
    let face = key_face(key, None, &none, &empty, &empty, None, false, &layout.drum_note_to_key);
    assert_eq!(face.drum_note, None);
    assert_ne!(face.palette.fill, Rgb { r: 0, g: 0, b: 0 });
}

#[test]
fn play_order_badges_join_the_steps() {
    assert_eq!(play_order_badge(&[1, 3, 4]), "1·3·4");
    assert_eq!(play_order_badge(&[12]), "12");
    assert_eq!(play_order_badge(&[]), "");
}
