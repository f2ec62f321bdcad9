use k2_viewer::controls::{
    active_waveforms, channel_options, knob_slug, label_for_waveform, pick_key_fixed,
    play_order_from_ticks, toggle_waveform_key, track_octave_options, waveform_for_label,
    waveform_from_slug, waveform_slug, KeyPickMode, TrackOctaveOption,
};
use k2_viewer::key::KeyId;
use k2_viewer::layout::build_layout;
use k2_viewer::synth::Waveform;

fn steps_of(order: &[(KeyId, Vec<usize>)], key: KeyId) -> Option<&Vec<usize>> {
    order.iter().find(|(k, _)| *k == key).map(|(_, steps)| steps)
}

#[test]
fn waveform_control_toggles_back_to_default() {
    let key = KeyId(42);
    let mut active = Vec::new();

    toggle_waveform_key(&mut active, key);
    assert_eq!(active, vec![key]);

    toggle_waveform_key(&mut active, key);
    assert!(active.is_empty());
}

#[test]
fn choosing_another_waveform_activates_it_alongside() {
    let triangle_key = KeyId(42);
    let square_key = KeyId(43);
    let mut active = vec![triangle_key];

    toggle_waveform_key(&mut active, square_key);
    assert_eq!(active, vec![triangle_key, square_key]);
}

#[test]
fn selection_play_order_groups_chords_and_numbers_onsets() {
    let first = KeyId(1);
    let chord_mate = KeyId(2);
    let last = KeyId(3);
    let order = play_order_from_ticks(vec![(first, vec![120]), (chord_mate, vec![120]), (last, vec![360])]);

    assert_eq!(steps_of(&order, first), Some(&vec![1]));
    assert_eq!(steps_of(&order, chord_mate), Some(&vec![1]));
    assert_eq!(steps_of(&order, last), Some(&vec![2]));
}

#[test]
fn selection_play_order_keeps_repeated_uses_of_one_key() {
    let repeated = KeyId(1);
    let middle = KeyId(2);
    let order = play_order_from_ticks(vec![(repeated, vec![100, 300, 300]), (middle, vec![200])]);

    assert_eq!(steps_of(&order, repeated), Some(&vec![1, 3]));
    assert_eq!(steps_of(&order, middle), Some(&vec![2]));
}

#[test]
fn key_pick_mode_cycles_through_three_labels() {
    let mut mode = KeyPickMode::LeftRight;
    let mut labels = Vec::new();
    for _ in 0..3 {
        labels.push(mode.label());
        mode = mode.next();
    }
    assert_eq!(mode, KeyPickMode::LeftRight);
    assert_eq!(labels, vec!["Rows: L/R", "Rows: U/D", "Rows: Closest"]);
}

#[test]
fn fixed_pick_takes_the_first_or_last_key() {
    let kids = [KeyId(5), KeyId(9), KeyId(2)];
    assert_eq!(pick_key_fixed(&kids, KeyPickMode::UpDown), Some(KeyId(5)));
    assert_eq!(pick_key_fixed(&kids, KeyPickMode::LeftRight), Some(KeyId(2)));
    assert_eq!(pick_key_fixed(&[], KeyPickMode::UpDown), None);
}

#[test]
fn waveform_labels_and_slugs_round_trip() {
    for w in [Waveform::Triangle, Waveform::Square, Waveform::Saw, Waveform::Sine, Waveform::Pulse, Waveform::Noise] {
        let label = label_for_waveform(w).expect("selectable layer has a key");
        assert_eq!(waveform_for_label(label), Some(w));
        assert_eq!(waveform_from_slug(waveform_slug(w)), Some(w));
    }
    assert_eq!(label_for_waveform(Waveform::Organ), None);
    assert_eq!(waveform_slug(Waveform::Organ), "organ");
    assert_eq!(waveform_from_slug("organ"), None);
    assert_eq!(waveform_for_label("Num"), None);
    assert_eq!(Waveform::default(), Waveform::Organ);
}

#[test]
fn knob_slugs_are_lowercase_with_underscores() {
    assert_eq!(knob_slug("Filter Cutoff"), "filter_cutoff");
    assert_eq!(knob_slug("LFO"), "lfo");
    assert_eq!(knob_slug(""), "");
}

#[test]
fn option_lists_label_channels_and_octaves() {
    let channels = channel_options("PLAY CH");
    assert_eq!(channels.len(), 16);
    assert_eq!(channels[0].label(), "PLAY CH 1");
    assert_eq!(channels[15].label(), "PLAY CH 16");
    let octaves = track_octave_options();
    let labels: Vec<String> = octaves.iter().map(TrackOctaveOption::label).collect();
    assert_eq!(labels, vec!["OCT -3", "OCT -2", "OCT -1", "OCT ±0", "OCT +1", "OCT +2", "OCT +3"]);
}

#[test]
fn active_waveforms_follow_the_toggled_nav_keys() {
    let layout = build_layout();
    // Insert (Triangle) and End (Pulse), and an alpha key that names no layer.
    let active = vec![layout.keys[86].id, layout.keys[82].id, layout.keys[20].id];
    assert_eq!(active_waveforms(&layout.keys, &active), vec![Waveform::Triangle, Waveform::Pulse]);
    assert!(active_waveforms(&layout.keys, &Vec::new()).is_empty());
}
