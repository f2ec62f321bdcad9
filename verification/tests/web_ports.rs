use k2_viewer::playback::{
    duration_micros, list_output_ports, midi_access_error_status, needs_reconnect, next_web_midi_port,
    ports_status, refreshed_port, MidiPortInfo,
};

fn ports(ids: &[&str]) -> Vec<MidiPortInfo> {
    ids.iter().map(|id| MidiPortInfo { id: id.to_string(), name: format!("Port {id}") }).collect()
}

#[test]
fn the_midi_button_cycles_through_the_ports() {
    let list = ports(&["a", "b", "c"]);
    assert_eq!(next_web_midi_port(None, &list), Some("a".to_string()));
    assert_eq!(next_web_midi_port(Some("a"), &list), Some("b".to_string()));
    assert_eq!(next_web_midi_port(Some("c"), &list), None);
    assert_eq!(next_web_midi_port(Some("gone"), &list), Some("a".to_string()));
    assert_eq!(next_web_midi_port(None, &[]), None);
}

#[test]
fn a_listed_port_stays_chosen_after_a_refresh() {
    let list = ports(&["a", "b"]);
    assert_eq!(refreshed_port(Some("b"), &list, true), Some("b".to_string()));
    assert_eq!(refreshed_port(Some("gone"), &list, true), Some("a".to_string()));
    assert_eq!(refreshed_port(Some("gone"), &list, false), None);
    assert_eq!(refreshed_port(None, &[], true), None);
}

#[test]
fn reconnect_on_a_new_choice_or_a_lost_connection() {
    assert!(!needs_reconnect(Some("a"), Some("a"), true));
    assert!(needs_reconnect(Some("a"), Some("a"), false));
    assert!(needs_reconnect(Some("b"), Some("a"), true));
    assert!(needs_reconnect(None, Some("a"), true));
    assert!(!needs_reconnect(None, None, false));
}

#[test]
fn port_counts_show_in_the_status_line() {
    assert_eq!(ports_status(0, 0, None), Some("MIDI access granted — no devices found".to_string()));
    assert_eq!(ports_status(1, 2, None), Some("MIDI connected · 1 input · 2 outputs".to_string()));
    assert_eq!(ports_status(3, 1, Some("old")), Some("MIDI connected · 3 inputs · 1 output".to_string()));
    assert_eq!(ports_status(1, 1, Some("MIDI error: denied")), None);
}

#[test]
fn access_errors_explain_firefox() {
    assert_eq!(
        midi_access_error_status("Mozilla/5.0 (Android 14) Firefox/120.0", "x"),
        "MIDI error: Firefox for Android does not support Web MIDI"
    );
    assert_eq!(
        midi_access_error_status("Mozilla/5.0 (X11) Firefox/120.0", "x"),
        "MIDI error: connect the device before starting Firefox, then approve its MIDI site-permission add-on"
    );
    assert_eq!(midi_access_error_status("Chrome/120", "SecurityError"), "MIDI error: SecurityError");
}

#[test]
fn durations_saturate_and_the_browser_lists_no_ports() {
    assert_eq!(duration_micros(1_500_000), 1_500_000);
    assert_eq!(duration_micros(u128::MAX), u64::MAX);
    assert!(list_output_ports().is_empty());
}
