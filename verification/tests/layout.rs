use std::collections::HashSet;

use k2_viewer::computer_keys::{
    computer_projection_labels, key_range, mapped_computer_keys, normalize_computer_key,
    numpad_range, octave_shortcut, shifted_live_octave, ComputerKey, NamedKey, OctaveShortcut, RawKey,
};
use k2_viewer::controls::ComputerKeyLocation;
use k2_viewer::key::{Cluster, Key, KeyId};
use k2_viewer::layout::{build_layout, note_cluster, note_name, Layout, DRUM_PAD_NOTES, KEY_COUNT, NAV_COL, NUMPAD_COL};

fn key<'a>(layout: &'a Layout, id: KeyId) -> &'a Key {
    layout.keys.iter().find(|k| k.id == id).expect("key on the board")
}

fn horizontal_bounds(keys: &[Key], pick: impl Fn(Cluster) -> bool) -> (u16, u16) {
    keys.iter()
        .filter(|key| pick(key.cluster))
        .fold((u16::MAX, u16::MIN), |(left, right), key| (left.min(key.col), right.max(key.col + key.w)))
}

#[test]
fn right_hand_sections_share_alignment_and_spacing() {
    let layout = build_layout();
    let alpha = horizontal_bounds(&layout.keys, |c| matches!(c, Cluster::Alpha | Cluster::AlphaLight));
    let nav = horizontal_bounds(&layout.keys, |c| c == Cluster::Nav);
    let arrows = horizontal_bounds(&layout.keys, |c| c == Cluster::Arrow);
    let numpad = horizontal_bounds(&layout.keys, |c| c == Cluster::Numpad);

    assert_eq!(nav, arrows);
    assert_eq!(nav.0 - alpha.1, numpad.0 - arrows.1);
    assert_eq!(nav, (NAV_COL, NAV_COL + 18));
    assert_eq!(numpad.0, NUMPAD_COL);
}

#[test]
fn the_board_has_its_keys_in_order_with_unique_ids() {
    let layout = build_layout();
    assert_eq!(layout.keys.len(), KEY_COUNT);
    for (i, key) in layout.keys.iter().enumerate() {
        assert_eq!(key.id, KeyId(i as u32 + 1));
    }
    assert_eq!(layout.keys.iter().filter(|k| k.is_knob).count(), 12);
    assert_eq!(layout.keys.iter().filter(|k| k.cluster == Cluster::Numpad).count(), 20);
    let first_alpha = &layout.keys[12];
    assert_eq!((first_alpha.label, first_alpha.midi_note, first_alpha.w), ("F#", Some(78), 9));
}

#[test]
fn overlapping_rows_list_a_note_top_row_first() {
    let layout = build_layout();
    // 78 is the first key of row 1 and the seventh of row 3.
    let ids = &layout.note_to_all_keys[&78];
    assert_eq!(ids.len(), 2);
    let rows: Vec<u16> = ids.iter().map(|&id| key(&layout, id).row).collect();
    assert_eq!(rows, vec![6, 18]);
    for (note, ids) in &layout.note_to_all_keys {
        assert!(layout.keyboard_notes.contains(note));
        let rows: Vec<u16> = ids.iter().map(|&id| key(&layout, id).row).collect();
        assert!(rows.windows(2).all(|pair| pair[0] <= pair[1]));
        assert!(ids.iter().all(|&id| key(&layout, id).midi_note == Some(*note)));
    }
    assert_eq!(layout.keyboard_notes.len(), layout.note_to_all_keys.len());
    assert!(!layout.keyboard_notes.contains(&53));
    assert!(layout.keyboard_notes.contains(&54));
}

#[test]
fn drum_pads_take_the_numpad_in_reading_order() {
    let layout = build_layout();
    assert_eq!(layout.drum_note_to_key.len(), 20);
    for (j, note) in DRUM_PAD_NOTES.iter().enumerate() {
        let id = layout.drum_note_to_key[note];
        assert_eq!(id, layout.keys[92 + j].id);
        assert_eq!(key(&layout, id).cluster, Cluster::Numpad);
    }
}

#[test]
fn note_names_and_clusters_follow_the_pitch_class() {
    assert_eq!(note_name(60), "C");
    assert_eq!(note_name(61), "C#");
    assert_eq!(note_name(71), "B");
    assert_eq!(note_cluster(61), Cluster::Alpha);
    assert_eq!(note_cluster(60), Cluster::AlphaLight);
}

#[test]
fn computer_spacebar_spans_six_bottom_row_notes() {
    let layout = build_layout();
    let key_space = ComputerKey::Named(NamedKey::Space, ComputerKeyLocation::Standard);
    let mapped = mapped_computer_keys(&layout.keys, &key_space);
    let labels = computer_projection_labels(&layout.keys);

    assert_eq!(mapped.len(), 6);
    assert!(mapped.iter().all(|id| {
        layout.keys.iter().find(|candidate| candidate.id == *id).is_some_and(|candidate| candidate.row == 30)
    }));
    assert!(mapped.iter().all(|id| labels.get(&id.0).is_some_and(|label| label == "SPACE")));
}

#[test]
fn computer_numpad_zero_spans_two_drum_pads() {
    let layout = build_layout();
    let key_zero = ComputerKey::Character("0".to_string(), ComputerKeyLocation::Numpad);
    let mapped = mapped_computer_keys(&layout.keys, &key_zero);
    let labels = computer_projection_labels(&layout.keys);

    assert_eq!(mapped.len(), 2);
    assert!(mapped.iter().all(|id| layout.drum_note_to_key.values().any(|drum_key| drum_key == id)));
    assert!(mapped.iter().all(|id| labels.get(&id.0).is_some_and(|label| label == "0")));
}

#[test]
fn computer_rows_play_the_board_rows_under_them() {
    let layout = build_layout();
    let labels = computer_projection_labels(&layout.keys);
    let standard = |c: &str| ComputerKey::Character(c.to_string(), ComputerKeyLocation::Standard);
    for (c, label) in [("q", "Q"), ("a", "A"), ("z", "Z"), ("`", "`"), ("/", "/")] {
        let mapped = mapped_computer_keys(&layout.keys, &standard(c));
        assert_eq!(mapped.len(), 1, "{c}");
        assert_eq!(labels.get(&mapped[0].0).map(String::as_str), Some(label));
    }
    // Q sits over the third key of board row 2.
    assert_eq!(mapped_computer_keys(&layout.keys, &standard("q")), vec![layout.keys[28].id]);
    // Tab spans the first two keys of row 2; the right Shift three keys of row 4.
    let tab = mapped_computer_keys(&layout.keys, &ComputerKey::Named(NamedKey::Tab, ComputerKeyLocation::Standard));
    assert_eq!(tab, vec![layout.keys[26].id, layout.keys[27].id]);
    let shift = ComputerKey::Named(NamedKey::Shift, ComputerKeyLocation::Right);
    assert_eq!(mapped_computer_keys(&layout.keys, &shift).len(), 3);
    // Keys off the map play nothing.
    assert!(mapped_computer_keys(&layout.keys, &standard("é")).is_empty());
    assert!(mapped_computer_keys(&layout.keys, &ComputerKey::Named(NamedKey::Other, ComputerKeyLocation::Standard)).is_empty());
}

#[test]
fn navigation_and_numpad_keys_map_to_their_clusters() {
    let layout = build_layout();
    let named = |n| ComputerKey::Named(n, ComputerKeyLocation::Standard);
    let insert = mapped_computer_keys(&layout.keys, &named(NamedKey::Insert));
    assert_eq!(insert, vec![layout.keys[82].id]);
    let up = mapped_computer_keys(&layout.keys, &named(NamedKey::ArrowUp));
    assert_eq!(up, vec![layout.keys[88].id]);
    let enter = mapped_computer_keys(&layout.keys, &ComputerKey::Named(NamedKey::Enter, ComputerKeyLocation::Numpad));
    assert_eq!(enter, vec![layout.keys[92 + 15].id, layout.keys[92 + 19].id]);
    let plus = mapped_computer_keys(&layout.keys, &ComputerKey::Character("+".to_string(), ComputerKeyLocation::Numpad));
    assert_eq!(plus, vec![layout.keys[92 + 7].id, layout.keys[92 + 11].id]);
    assert_eq!(numpad_range(&layout.keys, &[0, 25]), vec![layout.keys[92].id]);
}

#[test]
fn key_ranges_count_left_to_right_and_stop_at_the_row_end() {
    let layout = build_layout();
    assert_eq!(key_range(&layout.keys, 30, 0, 1), vec![layout.keys[70].id, layout.keys[71].id]);
    assert!(key_range(&layout.keys, 30, 10, 12).is_empty());
    assert!(key_range(&layout.keys, 30, 3, 2).is_empty());
    assert!(key_range(&layout.keys, 0, 0, 0).is_empty());
}

#[test]
fn every_alpha_key_gets_a_projection_label() {
    let layout = build_layout();
    let labels = computer_projection_labels(&layout.keys);
    let alpha_rows_1_to_4 = layout.keys.iter().filter(|k| matches!(k.cluster, Cluster::Alpha | Cluster::AlphaLight) && k.row < 30);
    for k in alpha_rows_1_to_4 {
        assert!(labels.contains_key(&k.id.0), "{:?}", k.id);
    }
    let pads: HashSet<u32> = layout.keys[92..].iter().map(|k| k.id.0).collect();
    assert!(pads.iter().all(|id| labels.contains_key(id)));
}

#[test]
fn shifted_characters_normalize_to_their_key() {
    let standard = ComputerKeyLocation::Standard;
    assert_eq!(
        normalize_computer_key(RawKey::Character("!".to_string()), standard),
        Some(ComputerKey::Character("1".to_string(), standard))
    );
    assert_eq!(
        normalize_computer_key(RawKey::Character("Q".to_string()), standard),
        Some(ComputerKey::Character("q".to_string(), standard))
    );
    // On the numpad symbols stay as typed.
    let numpad = ComputerKeyLocation::Numpad;
    assert_eq!(
        normalize_computer_key(RawKey::Character("*".to_string()), numpad),
        Some(ComputerKey::Character("*".to_string(), numpad))
    );
    assert_eq!(
        normalize_computer_key(RawKey::Named(NamedKey::Tab), standard),
        Some(ComputerKey::Named(NamedKey::Tab, standard))
    );
    assert_eq!(normalize_computer_key(RawKey::Unidentified, standard), None);
}

#[test]
fn arrow_keys_step_the_live_octave_once() {
    assert_eq!(octave_shortcut(&RawKey::Named(NamedKey::ArrowUp), false), Some(OctaveShortcut::Up));
    assert_eq!(octave_shortcut(&RawKey::Named(NamedKey::ArrowDown), false), Some(OctaveShortcut::Down));
    assert_eq!(octave_shortcut(&RawKey::Named(NamedKey::ArrowUp), true), None);
    assert_eq!(octave_shortcut(&RawKey::Named(NamedKey::Space), false), None);
    assert_eq!(shifted_live_octave(0, OctaveShortcut::Up), 12);
    assert_eq!(shifted_live_octave(120, OctaveShortcut::Up), 127);
    assert_eq!(shifted_live_octave(-120, OctaveShortcut::Down), -128);
}
