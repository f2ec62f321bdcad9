use k2_viewer::controls::{toggle_waveform_key, KeyPickMode, PlayState};
use k2_viewer::highlight::{KeyPress, LiveKeys};
use k2_viewer::key::KeyId;
use k2_viewer::layout::build_layout;
use k2_viewer::settings::{
    next_port_index, skipped_notes, transport_press, SettingsMsg, TransportButton, ViewSettings,
};
use k2_viewer::synth::Waveform;
use k2_viewer::text::parse_i8;
use k2_viewer::url_state::{
    load_settings, query_value, settings_search, split_text, waveform_keys_for, UrlSettings,
};

fn fresh() -> UrlSettings {
    UrlSettings {
        audio_enabled: true,
        keyboard_hits_enabled: false,
        drum_symbols_enabled: false,
        compact_keyboard: false,
        looper_enabled: false,
        key_pick_mode: KeyPickMode::Closest,
        live_octave: 0,
        waveforms: Vec::new(),
    }
}

fn same(a: &UrlSettings, b: &UrlSettings) -> bool {
    a.audio_enabled == b.audio_enabled
        && a.keyboard_hits_enabled == b.keyboard_hits_enabled
        && a.drum_symbols_enabled == b.drum_symbols_enabled
        && a.compact_keyboard == b.compact_keyboard
        && a.looper_enabled == b.looper_enabled
        && a.key_pick_mode == b.key_pick_mode
        && a.live_octave == b.live_octave
        && a.waveforms == b.waveforms
}

#[test]
fn a_stock_setup_keeps_a_bare_address() {
    assert_eq!(settings_search(&Vec::new(), &fresh()), "");
}

#[test]
fn changed_settings_are_written_in_order() {
    let s = UrlSettings {
        audio_enabled: false,
        keyboard_hits_enabled: true,
        drum_symbols_enabled: false,
        compact_keyboard: true,
        looper_enabled: true,
        key_pick_mode: KeyPickMode::UpDown,
        live_octave: -24,
        waveforms: vec![Waveform::Saw, Waveform::Noise],
    };
    let knobs = vec!["vib_depth=0.50".to_string()];
    assert_eq!(
        settings_search(&knobs, &s),
        "?vib_depth=0.50&sound=0&keys=1&compact=1&loop=1&row=ud&live_octave=-2&waveforms=saw,noise"
    );
}

#[test]
fn saved_settings_survive_a_reload() {
    let s = UrlSettings {
        audio_enabled: false,
        keyboard_hits_enabled: false,
        drum_symbols_enabled: true,
        compact_keyboard: false,
        looper_enabled: true,
        key_pick_mode: KeyPickMode::LeftRight,
        live_octave: 36,
        waveforms: vec![Waveform::Triangle, Waveform::Pulse],
    };
    let search = settings_search(&vec!["attack=0.10".to_string()], &s);
    let back = load_settings(&search, fresh());
    assert!(same(&back, &s));
    assert_eq!(query_value(&search, "attack"), Some("0.10".to_string()));
}

#[test]
fn loading_reads_only_what_the_address_holds() {
    let back = load_settings("?keys=yes&row=other&live_octave=x&waveforms=organ,sine,bogus", fresh());
    assert!(back.audio_enabled);
    assert!(back.keyboard_hits_enabled);
    assert_eq!(back.key_pick_mode, KeyPickMode::Closest);
    assert_eq!(back.live_octave, 0);
    assert_eq!(back.waveforms, vec![Waveform::Sine]);

    // A later piece overrides an earlier one; the live shift saturates.
    let back = load_settings("sound=1&sound=0&live_octave=20", fresh());
    assert!(!back.audio_enabled);
    assert_eq!(back.live_octave, 127);
    assert!(same(&load_settings("", fresh()), &fresh()));
}

#[test]
fn query_pieces_split_at_every_separator() {
    assert_eq!(split_text("a=1&&b", '&'), vec!["a=1".to_string(), String::new(), "b".to_string()]);
    assert_eq!(split_text("", '&'), vec![String::new()]);
    assert_eq!(query_value("?x=1=2&y", "x"), Some("1=2".to_string()));
    assert_eq!(query_value("?x=1=2&y", "y"), None);
}

#[test]
fn small_numbers_parse_like_std() {
    assert_eq!(parse_i8("12"), Some(12));
    assert_eq!(parse_i8("+7"), Some(7));
    assert_eq!(parse_i8("-128"), Some(-128));
    assert_eq!(parse_i8("128"), None);
    assert_eq!(parse_i8("-"), None);
    assert_eq!(parse_i8(""), None);
    assert_eq!(parse_i8("1a"), None);
    assert_eq!(parse_i8("007"), Some(7));
}

#[test]
fn restored_layers_select_their_navigation_keys() {
    let layout = build_layout();
    let keys = waveform_keys_for(&layout.keys, &[Waveform::Saw, Waveform::Organ, Waveform::Triangle]);
    assert_eq!(keys, vec![KeyId(85), KeyId(83)]);
}

#[test]
fn pitch_nudges_move_the_song_and_remap_the_keys() {
    let mut s = ViewSettings::new();
    let fx = s.press(SettingsMsg::PitchUp, true);
    assert_eq!(s.octave_offset, 12);
    assert!(fx.sync_octave && fx.rebuild_closest && fx.rebuild_selection && !fx.rebuild_all_notes);
    s.press(SettingsMsg::PitchStepToggle, false);
    assert_eq!(s.pitch_step, 1);
    s.press(SettingsMsg::PitchDown, false);
    assert_eq!(s.octave_offset, 11);
    s.press(SettingsMsg::PitchReset, false);
    assert_eq!(s.octave_offset, 0);
    for _ in 0..20 {
        s.press(SettingsMsg::LiveOctaveDown, false);
    }
    assert_eq!(s.live_octave, -128);
}

#[test]
fn switches_toggle_and_report_what_follows() {
    let mut s = ViewSettings::new();
    let fx = s.press(SettingsMsg::ToggleKeyboardHits, false);
    assert!(s.keyboard_hits_enabled && !fx.release_computer_keys && fx.sync_url);
    let fx = s.press(SettingsMsg::ToggleKeyboardHits, false);
    assert!(!s.keyboard_hits_enabled && fx.release_computer_keys);
    let fx = s.press(SettingsMsg::ToggleAllNotes, false);
    assert!(s.show_all_notes && fx.rebuild_all_notes && !fx.clear_highlights);
    let fx = s.press(SettingsMsg::ToggleAllNotes, false);
    assert!(!s.show_all_notes && !fx.rebuild_all_notes && fx.clear_highlights);
    let fx = s.press(SettingsMsg::OctaveLayoutToggle, false);
    assert_eq!(s.key_pick_mode, KeyPickMode::LeftRight);
    assert!(fx.clear_highlights && fx.rebuild_closest && !fx.rebuild_selection);
    let fx = s.press(SettingsMsg::ToggleCompactKeyboard, false);
    assert!(s.compact_keyboard && fx.reset_keyboard_height);
    let fx = s.press(SettingsMsg::ToggleLooper, false);
    assert!(s.looper_enabled && fx.sync_loop_range);
}

#[test]
fn transport_buttons_need_a_song_except_stop() {
    assert_eq!(transport_press(PlayState::Stopped, true, TransportButton::Play), (PlayState::Playing, true, false));
    assert_eq!(transport_press(PlayState::Stopped, false, TransportButton::Play), (PlayState::Stopped, false, false));
    assert_eq!(transport_press(PlayState::Playing, true, TransportButton::Pause), (PlayState::Paused, true, false));
    assert_eq!(transport_press(PlayState::Paused, false, TransportButton::Stop), (PlayState::Stopped, false, true));
}

#[test]
fn the_port_button_wraps_and_skipped_notes_never_go_negative() {
    assert_eq!(next_port_index(0, 3), 1);
    assert_eq!(next_port_index(2, 3), 0);
    assert_eq!(next_port_index(5, 0), 5);
    assert_eq!(skipped_notes(7, 10), 3);
    assert_eq!(skipped_notes(12, 10), 0);
}

#[test]
fn releasing_a_key_stops_the_note_its_press_started() {
    let mut live = LiveKeys::new();
    assert_eq!(live.press(KeyId(30), KeyPress::Sound(60, 1)), Some((60, 1)));
    assert_eq!(live.press(KeyId(31), KeyPress::Silent), None);
    assert_eq!(live.press(KeyId(83), KeyPress::ToggleWaveform), None);
    // The live octave may change while the key is held; the release still
    // turns off what was turned on.
    assert_eq!(live.press(KeyId(32), KeyPress::Sound(72, 1)), Some((72, 1)));
    assert_eq!(live.release(KeyId(30)), Some((60, 1)));
    assert_eq!(live.release(KeyId(30)), None);
    assert_eq!(live.release(KeyId(31)), None);
    assert_eq!(live.release(KeyId(32)), Some((72, 1)));
}

#[test]
fn pressing_a_waveform_key_twice_restores_the_layers() {
    let mut active = vec![KeyId(84)];
    toggle_waveform_key(&mut active, KeyId(85));
    assert_eq!(active, vec![KeyId(84), KeyId(85)]);
    toggle_waveform_key(&mut active, KeyId(85));
    assert_eq!(active, vec![KeyId(84)]);
}
