//! The viewer's settings buttons: what each press changes and which views
//! must then be brought up to date.
use vstd::prelude::*;
use crate::controls::{KeyPickMode, PlayState, next_mode};

verus! {

/// `a + b` clamped to the range of `i8`.
pub open spec fn clamp_i8(v: int) -> i8 {
    if v < i8::MIN { i8::MIN } else if v > i8::MAX { i8::MAX } else { v as i8 }
}

fn saturating_add_i8(a: i8, b: i8) -> (r: i8)
    ensures
        r == clamp_i8(a + b),
{
    let v: i16 = a as i16 + b as i16;
    if v < -128 {
        -128
    } else if v > 127 {
        127
    } else {
        v as i8
    }
}

fn saturating_sub_i8(a: i8, b: i8) -> (r: i8)
    ensures
        r == clamp_i8(a - b),
{
    let v: i16 = a as i16 - b as i16;
    if v < -128 {
        -128
    } else if v > 127 {
        127
    } else {
        v as i8
    }
}

/// The settings the buttons of the viewer change.
#[derive(Debug, Clone, Copy, PartialEq, Eq, Structural)]
pub struct ViewSettings {
    /// Semitones the song is shifted by on the keyboard.
    pub octave_offset: i8,
    /// What one pitch nudge moves: an octave (12) or a semitone (1).
    pub pitch_step: i8,
    /// Semitones added to the notes played live on the board.
    pub live_octave: i8,
    pub key_pick_mode: KeyPickMode,
    pub show_all_notes: bool,
    pub looper_enabled: bool,
    pub keyboard_hits_enabled: bool,
    pub drum_symbols_enabled: bool,
    pub compact_keyboard: bool,
}

/// A press of one of the settings buttons.
#[derive(Debug, Clone, Copy, PartialEq, Eq, Structural)]
pub enum SettingsMsg {
    PitchUp,
    PitchDown,
    PitchReset,
    PitchStepToggle,
    LiveOctaveUp,
    LiveOctaveDown,
    OctaveLayoutToggle,
    ToggleAllNotes,
    ToggleLooper,
    ToggleDrumSymbols,
    ToggleCompactKeyboard,
    ToggleKeyboardHits,
}

/// What must follow a change of the settings.
#[derive(Debug, Clone, Copy, PartialEq, Eq, Structural)]
pub struct SettingsEffects {
    /// Tell the playback engine the new song shift.
    pub sync_octave: bool,
    /// Recompute the key each pitch lights in Closest mode.
    pub rebuild_closest: bool,
    /// Recompute the all-notes view.
    pub rebuild_all_notes: bool,
    /// Recompute the selection view.
    pub rebuild_selection: bool,
    /// Unlight the keys lit by playback.
    pub clear_highlights: bool,
    /// Release the board keys held by computer keys.
    pub release_computer_keys: bool,
    /// Tell the playback engine the new loop range.
    pub sync_loop_range: bool,
    /// Drop a keyboard height set by hand.
    pub reset_keyboard_height: bool,
    /// Mirror the settings into the page address.
    pub sync_url: bool,
}

pub open spec fn no_effects() -> SettingsEffects {
    SettingsEffects {
        sync_octave: false,
        rebuild_closest: false,
        rebuild_all_notes: false,
        rebuild_selection: false,
        clear_highlights: false,
        release_computer_keys: false,
        sync_loop_range: false,
        reset_keyboard_height: false,
        sync_url: false,
    }
}

/// After the song shift or the row choice changes, every view of where
/// notes land is recomputed (the all-notes and selection views only while
/// they are showing).
pub open spec fn remap_effects(s: ViewSettings, has_selection: bool) -> SettingsEffects {
    SettingsEffects {
        rebuild_closest: true,
        rebuild_all_notes: s.show_all_notes,
        rebuild_selection: has_selection,
        ..no_effects()
    }
}

/// The settings after `msg`, and what must follow, given whether a staff
/// selection is showing.
pub open spec fn settings_after(s: ViewSettings, msg: SettingsMsg, has_selection: bool) -> (ViewSettings, SettingsEffects) {
    match msg {
        SettingsMsg::PitchUp => (
            ViewSettings { octave_offset: clamp_i8(s.octave_offset + s.pitch_step), ..s },
            SettingsEffects { sync_octave: true, ..remap_effects(s, has_selection) },
        ),
        SettingsMsg::PitchDown => (
            ViewSettings { octave_offset: clamp_i8(s.octave_offset - s.pitch_step), ..s },
            SettingsEffects { sync_octave: true, ..remap_effects(s, has_selection) },
        ),
        SettingsMsg::PitchReset => (
            ViewSettings { octave_offset: 0, ..s },
            SettingsEffects { sync_octave: true, ..remap_effects(s, has_selection) },
        ),
        SettingsMsg::PitchStepToggle => (
            ViewSettings { pitch_step: if s.pitch_step == 12 { 1 } else { 12 }, ..s },
            no_effects(),
        ),
        SettingsMsg::LiveOctaveUp => (
            ViewSettings { live_octave: clamp_i8(s.live_octave + 12), ..s },
            SettingsEffects { sync_url: true, ..no_effects() },
        ),
        SettingsMsg::LiveOctaveDown => (
            ViewSettings { live_octave: clamp_i8(s.live_octave - 12), ..s },
            SettingsEffects { sync_url: true, ..no_effects() },
        ),
        SettingsMsg::OctaveLayoutToggle => (
            ViewSettings { key_pick_mode: next_mode(s.key_pick_mode), ..s },
            SettingsEffects { clear_highlights: true, sync_url: true, ..remap_effects(s, has_selection) },
        ),
        SettingsMsg::ToggleAllNotes => (
            ViewSettings { show_all_notes: !s.show_all_notes, ..s },
            SettingsEffects { rebuild_all_notes: !s.show_all_notes, clear_highlights: s.show_all_notes, ..no_effects() },
        ),
        SettingsMsg::ToggleLooper => (
            ViewSettings { looper_enabled: !s.looper_enabled, ..s },
            SettingsEffects { sync_loop_range: true, sync_url: true, ..no_effects() },
        ),
        SettingsMsg::ToggleDrumSymbols => (
            ViewSettings { drum_symbols_enabled: !s.drum_symbols_enabled, ..s },
            SettingsEffects { sync_url: true, ..no_effects() },
        ),
        SettingsMsg::ToggleCompactKeyboard => (
            ViewSettings { compact_keyboard: !s.compact_keyboard, ..s },
            SettingsEffects { reset_keyboard_height: true, sync_url: true, ..no_effects() },
        ),
        SettingsMsg::ToggleKeyboardHits => (
            ViewSettings { keyboard_hits_enabled: !s.keyboard_hits_enabled, ..s },
            SettingsEffects { release_computer_keys: s.keyboard_hits_enabled, sync_url: true, ..no_effects() },
        ),
    }
}

fn remap(s: &ViewSettings, has_selection: bool) -> (fx: SettingsEffects)
    ensures
        fx == remap_effects(*s, has_selection),
{
    SettingsEffects {
        sync_octave: false,
        rebuild_closest: true,
        rebuild_all_notes: s.show_all_notes,
        rebuild_selection: has_selection,
        clear_highlights: false,
        release_computer_keys: false,
        sync_loop_range: false,
        reset_keyboard_height: false,
        sync_url: false,
    }
}

fn only_url() -> (fx: SettingsEffects)
    ensures
        fx == (SettingsEffects { sync_url: true, ..no_effects() }),
{
    SettingsEffects {
        sync_octave: false,
        rebuild_closest: false,
        rebuild_all_notes: false,
        rebuild_selection: false,
        clear_highlights: false,
        release_computer_keys: false,
        sync_loop_range: false,
        reset_keyboard_height: false,
        sync_url: true,
    }
}

impl ViewSettings {
    /// The settings of a fresh viewer: no shift, octave nudges, the closest
    /// key for repeated notes, and every option off.
    pub fn new() -> (r: Self)
        ensures
            r.octave_offset == 0 && r.pitch_step == 12 && r.live_octave == 0,
            r.key_pick_mode == KeyPickMode::Closest,
            !r.show_all_notes && !r.looper_enabled && !r.keyboard_hits_enabled,
            !r.drum_symbols_enabled && !r.compact_keyboard,
    {
        ViewSettings {
            octave_offset: 0,
            pitch_step: 12,
            live_octave: 0,
            key_pick_mode: KeyPickMode::Closest,
            show_all_notes: false,
            looper_enabled: false,
            keyboard_hits_enabled: false,
            drum_symbols_enabled: false,
            compact_keyboard: false,
        }
    }

    /// Applies one button press.
    pub fn press(&mut self, msg: SettingsMsg, has_selection: bool) -> (fx: SettingsEffects)
        ensures
            (*final(self), fx) == settings_after(*old(self), msg, has_selection),
    {
        let s = *self;
        match msg {
            SettingsMsg::PitchUp => {
                self.octave_offset = saturating_add_i8(s.octave_offset, s.pitch_step);
                let fx = remap(&s, has_selection);
                SettingsEffects { sync_octave: true, ..fx }
            },
            SettingsMsg::PitchDown => {
                self.octave_offset = saturating_sub_i8(s.octave_offset, s.pitch_step);
                let fx = remap(&s, has_selection);
                SettingsEffects { sync_octave: true, ..fx }
            },
            SettingsMsg::PitchReset => {
                self.octave_offset = 0;
                let fx = remap(&s, has_selection);
                SettingsEffects { sync_octave: true, ..fx }
            },
            SettingsMsg::PitchStepToggle => {
                self.pitch_step = if s.pitch_step == 12 { 1 } else { 12 };
                SettingsEffects { sync_url: false, ..only_url() }
            },
            SettingsMsg::LiveOctaveUp => {
                self.live_octave = saturating_add_i8(s.live_octave, 12);
                only_url()
            },
            SettingsMsg::LiveOctaveDown => {
                self.live_octave = saturating_sub_i8(s.live_octave, 12);
                only_url()
            },
            SettingsMsg::OctaveLayoutToggle => {
                self.key_pick_mode = s.key_pick_mode.next();
                let fx = remap(&s, has_selection);
                SettingsEffects { clear_highlights: true, sync_url: true, ..fx }
            },
            SettingsMsg::ToggleAllNotes => {
                self.show_all_notes = !s.show_all_notes;
                SettingsEffects { rebuild_all_notes: !s.show_all_notes, clear_highlights: s.show_all_notes, sync_url: false, ..only_url() }
            },
            SettingsMsg::ToggleLooper => {
                self.looper_enabled = !s.looper_enabled;
                SettingsEffects { sync_loop_range: true, ..only_url() }
            },
            SettingsMsg::ToggleDrumSymbols => {
                self.drum_symbols_enabled = !s.drum_symbols_enabled;
                only_url()
            },
            SettingsMsg::ToggleCompactKeyboard => {
                self.compact_keyboard = !s.compact_keyboard;
                SettingsEffects { reset_keyboard_height: true, ..only_url() }
            },
            SettingsMsg::ToggleKeyboardHits => {
                self.keyboard_hits_enabled = !s.keyboard_hits_enabled;
                SettingsEffects { release_computer_keys: s.keyboard_hits_enabled, ..only_url() }
            },
        }
    }
}

/// A transport button.
#[derive(Debug, Clone, Copy, PartialEq, Eq, Structural)]
pub enum TransportButton {
    Play,
    Pause,
    Stop,
}

/// What a transport button does: the new state, whether the command goes to
/// the playback engine, and whether the playhead returns to the start with
/// the keys unlit. Play and Pause act only when a song is loaded; Stop always
/// stops the display.
pub open spec fn spec_transport_press(state: PlayState, loaded: bool, button: TransportButton) -> (PlayState, bool, bool) {
    match button {
        TransportButton::Play => if loaded { (PlayState::Playing, true, false) } else { (state, false, false) },
        TransportButton::Pause => if loaded { (PlayState::Paused, true, false) } else { (state, false, false) },
        TransportButton::Stop => (PlayState::Stopped, loaded, true),
    }
}

pub fn transport_press(state: PlayState, loaded: bool, button: TransportButton) -> (r: (PlayState, bool, bool))
    ensures
        r == spec_transport_press(state, loaded, button),
        r.1 == loaded,
        r.2 == (button == TransportButton::Stop),
        button == TransportButton::Stop ==> r.0 == PlayState::Stopped,
{
    match button {
        TransportButton::Play => if loaded { (PlayState::Playing, true, false) } else { (state, false, false) },
        TransportButton::Pause => if loaded { (PlayState::Paused, true, false) } else { (state, false, false) },
        TransportButton::Stop => (PlayState::Stopped, loaded, true),
    }
}

/// Every transport button reaches the playback engine exactly when a song is
/// loaded, whichever button it is; only Stop sends the playhead home, and Stop
/// always leaves the display stopped. Without a song, Play and Pause change
/// nothing.
pub proof fn lemma_transport_reaches_engine_iff_loaded(state: PlayState, loaded: bool, button: TransportButton)
    ensures
        spec_transport_press(state, loaded, button).1 == loaded,
        spec_transport_press(state, loaded, button).2 == (button == TransportButton::Stop),
        button == TransportButton::Stop ==> spec_transport_press(state, loaded, button).0 == PlayState::Stopped,
        !loaded && button != TransportButton::Stop ==> spec_transport_press(state, loaded, button).0 == state,
        loaded && button == TransportButton::Play ==> spec_transport_press(state, loaded, button).0 == PlayState::Playing,
        loaded && button == TransportButton::Pause ==> spec_transport_press(state, loaded, button).0 == PlayState::Paused,
{
}

/// The output port the port button moves to: the next one, round to the
/// first after the last; unchanged when there are none.
pub fn next_port_index(current: usize, count: usize) -> (r: usize)
    requires
        current < usize::MAX,
    ensures
        count == 0 ==> r == current,
        count > 0 ==> r == (current + 1) % (count as int),
{
    if count == 0 {
        current
    } else {
        (current + 1) % count
    }
}

/// Notes of a song the keyboard cannot play at the chosen shift.
pub fn skipped_notes(covered: usize, total: usize) -> (r: usize)
    ensures
        r == if covered <= total { total - covered } else { 0 },
{
    if covered <= total { total - covered } else { 0 }
}

} // verus!

verus! {

/// A nudge up then a nudge down by the same step gives back the song shift,
/// as long as the nudge up did not hit the end of the range.
pub proof fn lemma_pitch_nudges_cancel(s: ViewSettings, has_selection: bool)
    requires
        i8::MIN <= s.octave_offset + s.pitch_step <= i8::MAX,
    ensures
        settings_after(settings_after(s, SettingsMsg::PitchUp, has_selection).0, SettingsMsg::PitchDown, has_selection).0 == s,
{
}

/// Every on/off option comes back after two presses, the row choice after
/// three, and the nudge size after two once it is an octave or a semitone.
pub proof fn lemma_toggles_return(s: ViewSettings, msg: SettingsMsg, has_selection: bool)
    requires
        msg == SettingsMsg::ToggleAllNotes || msg == SettingsMsg::ToggleLooper || msg == SettingsMsg::ToggleDrumSymbols
            || msg == SettingsMsg::ToggleCompactKeyboard || msg == SettingsMsg::ToggleKeyboardHits
            || (msg == SettingsMsg::PitchStepToggle && (s.pitch_step == 12 || s.pitch_step == 1)),
    ensures
        settings_after(settings_after(s, msg, has_selection).0, msg, has_selection).0 == s,
        ({
            let once = settings_after(s, SettingsMsg::OctaveLayoutToggle, has_selection).0;
            let twice = settings_after(once, SettingsMsg::OctaveLayoutToggle, has_selection).0;
            settings_after(twice, SettingsMsg::OctaveLayoutToggle, has_selection).0 == s
        }),
{
}

/// A change of the song shift or of the row choice always recomputes the
/// keys the notes land on, and recomputes the selection view exactly when
/// one is showing.
pub proof fn lemma_remaps_follow_the_shift(s: ViewSettings, msg: SettingsMsg, has_selection: bool)
    requires
        msg == SettingsMsg::PitchUp || msg == SettingsMsg::PitchDown || msg == SettingsMsg::PitchReset
            || msg == SettingsMsg::OctaveLayoutToggle,
    ensures
        settings_after(s, msg, has_selection).1.rebuild_closest,
        settings_after(s, msg, has_selection).1.rebuild_selection == has_selection,
        settings_after(s, msg, has_selection).1.rebuild_all_notes == s.show_all_notes,
{
}

} // verus!
