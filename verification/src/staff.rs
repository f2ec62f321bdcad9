//! Staff notation: note names, staff positions, which notes land on a
//! physical key, and what the scrolling staff draws (bar lines, ledger lines,
//! the visible notes and the order their heads are painted in).
use vstd::prelude::*;
use std::collections::{HashMap, HashSet};
use crate::key::KeyId;
use crate::midi::{combined_octave_shift, spec_combined_octave_shift, MidiFile, Note};
use crate::synth::DRUM_CHANNEL;
use crate::text::{append_signed, signed_decimal};

verus! {

/// Diatonic step within the octave (0=C .. 6=B); sharps share their natural's step.
pub open spec fn diatonic(pc: int) -> int {
    if pc == 0 || pc == 1 {
        0
    } else if pc == 2 || pc == 3 {
        1
    } else if pc == 4 {
        2
    } else if pc == 5 || pc == 6 {
        3
    } else if pc == 7 || pc == 8 {
        4
    } else if pc == 9 || pc == 10 {
        5
    } else {
        6
    }
}

/// Staff slot of a MIDI note: 0 = C4 (middle C), one per diatonic step.
pub open spec fn spec_staff_slot(midi: u8) -> int {
    diatonic((midi % 12) as int) + (midi / 12 - 1 - 4) * 7
}

pub fn staff_slot(midi: u8) -> (r: i32)
    ensures
        r == spec_staff_slot(midi),
{
    let octave: i32 = (midi / 12) as i32 - 1;
    let pc = midi % 12;
    let step: i32 = if pc <= 1 {
        0
    } else if pc <= 3 {
        1
    } else if pc == 4 {
        2
    } else if pc <= 6 {
        3
    } else if pc <= 8 {
        4
    } else if pc <= 10 {
        5
    } else {
        6
    };
    step + (octave - 4) * 7
}

/// Black keys: C#, D#, F#, G#, A#.
pub open spec fn spec_is_sharp(midi: u8) -> bool {
    let pc = midi % 12;
    pc == 1 || pc == 3 || pc == 6 || pc == 8 || pc == 10
}

pub fn is_sharp(midi: u8) -> (r: bool)
    ensures
        r == spec_is_sharp(midi),
{
    let pc = midi % 12;
    pc == 1 || pc == 3 || pc == 6 || pc == 8 || pc == 10
}

/// A note one semitone up from a sharp sits on the next staff slot, from a
/// natural E or B too; other naturals share their slot with the sharp above.
pub proof fn lemma_staff_slot_steps(midi: u8)
    requires
        midi < 255,
    ensures
        spec_staff_slot((midi + 1) as u8) == spec_staff_slot(midi) + if spec_is_sharp(midi)
            || midi % 12 == 4 || midi % 12 == 11 {
            1int
        } else {
            0int
        },
{
}

pub open spec fn pitch_class_name(pc: int) -> Seq<char> {
    if pc == 0 {
        "C"@
    } else if pc == 1 {
        "C#"@
    } else if pc == 2 {
        "D"@
    } else if pc == 3 {
        "D#"@
    } else if pc == 4 {
        "E"@
    } else if pc == 5 {
        "F"@
    } else if pc == 6 {
        "F#"@
    } else if pc == 7 {
        "G"@
    } else if pc == 8 {
        "G#"@
    } else if pc == 9 {
        "A"@
    } else if pc == 10 {
        "A#"@
    } else {
        "B"@
    }
}

/// Name and octave of a MIDI note, e.g. 60 -> "C4".
pub fn note_name(midi: u8) -> (r: String)
    ensures
        r@ == pitch_class_name((midi % 12) as int) + signed_decimal(midi / 12 - 1),
{
    let mut s = String::from_str(crate::layout::note_name(midi));
    let octave: i32 = (midi / 12) as i32 - 1;
    append_signed(&mut s, octave);
    s
}

/// Lowest and highest note of the keyboard, none when it has no notes.
pub fn keyboard_range(keyboard_notes: &HashSet<u8>) -> (r: Option<(u8, u8)>)
    ensures
        r is None <==> keyboard_notes@.is_empty(),
        r matches Some((lo, hi)) ==> {
            &&& keyboard_notes@.contains(lo)
            &&& keyboard_notes@.contains(hi)
            &&& forall|n: u8| #[trigger] keyboard_notes@.contains(n) ==> lo <= n <= hi
        },
{
    broadcast use vstd::std_specs::hash::group_hash_axioms;

    let mut found: Option<(u8, u8)> = None;
    let mut n: u16 = 0;
    while n < 256
        invariant
            0 <= n <= 256,
            found is None <==> forall|m: u8| m < n ==> !keyboard_notes@.contains(m),
            found matches Some((lo, hi)) ==> {
                &&& keyboard_notes@.contains(lo)
                &&& keyboard_notes@.contains(hi)
                &&& lo <= hi < n
                &&& forall|m: u8| m < n && #[trigger] keyboard_notes@.contains(m) ==> lo <= m <= hi
            },
        decreases 256 - n,
    {
        let m = n as u8;
        if keyboard_notes.contains(&m) {
            found = match found {
                None => Some((m, m)),
                Some((lo, _)) => Some((lo, m)),
            };
        }
        n = n + 1;
    }
    proof {
        if found is None {
            assert forall|m: u8| !keyboard_notes@.contains(m) by {
                assert(m < 256);
            }
            assert(keyboard_notes@ =~= Set::<u8>::empty());
        } else {
            match found {
                Some((lo, _)) => {
                    assert(keyboard_notes@.contains(lo));
                },
                None => {},
            }
        }
    }
    found
}

/// MIDI note `note` shifted by `shift` semitones, clamped to 0..=127.
pub open spec fn clamped_shift(note: u8, shift: int) -> u8 {
    let s = note + shift;
    if s < 0 {
        0
    } else if s > 127 {
        127
    } else {
        s as u8
    }
}

/// Whether a note lands on a physical key: a drum pad for the percussion
/// channel, or the octave-shifted (and clamped) melodic keyboard otherwise.
pub open spec fn spec_note_fits(
    note: Note,
    keyboard: Set<u8>,
    drum_pads: Set<u8>,
    octave_offset: i8,
    track_octave: Seq<i8>,
) -> bool {
    if note.channel == DRUM_CHANNEL {
        drum_pads.contains(note.midi_note)
    } else {
        keyboard.contains(
            clamped_shift(note.midi_note, spec_combined_octave_shift(octave_offset, track_octave, note.track) as int),
        )
    }
}

pub fn note_fits(
    note: &Note,
    keyboard_notes: &HashSet<u8>,
    drum_note_to_key: &HashMap<u8, KeyId>,
    octave_offset: i8,
    track_octave: &[i8],
) -> (r: bool)
    ensures
        r == spec_note_fits(*note, keyboard_notes@, drum_note_to_key@.dom(), octave_offset, track_octave@),
{
    broadcast use vstd::std_specs::hash::group_hash_axioms;

    if note.channel == DRUM_CHANNEL {
        drum_note_to_key.contains_key(&note.midi_note)
    } else {
        let shift = combined_octave_shift(octave_offset, track_octave, note.track);
        let s: i16 = note.midi_note as i16 + shift;
        let shifted: u8 = if s < 0 {
            0
        } else if s > 127 {
            127
        } else {
            s as u8
        };
        keyboard_notes.contains(&shifted)
    }
}

/// The staff view's inputs: the song, the playhead, per-track mute and octave
/// settings, the selected tick range, and the keys notes can land on.
pub struct StaffCanvas<'a> {
    pub midi_file: Option<&'a MidiFile>,
    pub position_tick: u64,
    pub track_muted: &'a [bool],
    pub octave_offset: i8,
    pub track_octave: &'a [i8],
    /// Currently selected (start_tick, end_tick) range, drawn as a highlight band.
    pub selection: Option<(u64, u64)>,
    /// Raw firmware notes present on the melodic keyboard.
    pub keyboard_notes: &'a HashSet<u8>,
    /// GM percussion note -> drum pad key.
    pub drum_note_to_key: &'a HashMap<u8, KeyId>,
}

} // verus!

verus! {

/// Ticks in one bar: a beat's ticks times the time signature's numerator,
/// in quarter notes, over its denominator (taken as 1 when it is 0).
pub open spec fn spec_ticks_per_bar(ticks_per_beat: u16, time_sig: (u8, u8)) -> int {
    (ticks_per_beat * time_sig.0 * 4) / (if time_sig.1 == 0 { 1 } else { time_sig.1 as int })
}

pub fn ticks_per_bar(ticks_per_beat: u16, time_sig: (u8, u8)) -> (r: u64)
    ensures
        r == spec_ticks_per_bar(ticks_per_beat, time_sig),
{
    let a: u64 = ticks_per_beat as u64;
    let b: u64 = time_sig.0 as u64;
    assert(a * b <= 0xFFFF * 0xFF) by (nonlinear_arith)
        requires a <= 0xFFFF, b <= 0xFF;
    let num: u64 = a * b * 4;
    let den: u64 = if time_sig.1 == 0 { 1 } else { time_sig.1 as u64 };
    num / den
}

/// The ticks the staff shows around the playhead: three beats behind it
/// (from the start at most) to thirteen beats ahead.
pub fn visible_window(pos: u64, ticks_per_beat: u16) -> (r: (u64, u64))
    requires
        pos + 13 * ticks_per_beat <= u64::MAX,
    ensures
        r.0 == if pos >= 3 * ticks_per_beat { pos - 3 * ticks_per_beat } else { 0 },
        r.1 == pos + 13 * ticks_per_beat,
{
    let behind: u64 = 3 * ticks_per_beat as u64;
    let ahead: u64 = 13 * ticks_per_beat as u64;
    let start = if pos >= behind { pos - behind } else { 0 };
    (start, pos + ahead)
}

/// Bar starts from `bt` on, a bar apart, up to `end`; the walk stops where
/// the next bar would not fit in `u64`.
pub open spec fn bars_from(bt: u64, end: u64, step: u64) -> Seq<u64>
    decreases (if bt > end { 0 } else { end - bt + 1 }),
{
    if bt > end || step == 0 {
        seq![]
    } else if bt + step > u64::MAX {
        seq![bt]
    } else {
        seq![bt] + bars_from((bt + step) as u64, end, step)
    }
}

/// The bar lines in the visible window: every bar start from the one at or
/// before `vis_start` up to `vis_end`.
pub fn bar_ticks(vis_start: u64, vis_end: u64, ticks_per_bar: u64) -> (r: Vec<u64>)
    requires
        ticks_per_bar > 0,
    ensures
        r@ == bars_from(((vis_start / ticks_per_bar) * ticks_per_bar) as u64, vis_end, ticks_per_bar),
{
    let q = vis_start / ticks_per_bar;
    assert(q * ticks_per_bar <= vis_start) by (nonlinear_arith)
        requires q == vis_start / ticks_per_bar, ticks_per_bar > 0;
    let first = q * ticks_per_bar;
    let mut out: Vec<u64> = Vec::new();
    let mut bt = first;
    let ghost whole = bars_from(first, vis_end, ticks_per_bar);
    while bt <= vis_end
        invariant
            ticks_per_bar > 0,
            whole == bars_from(first, vis_end, ticks_per_bar),
            first == ((vis_start / ticks_per_bar) * ticks_per_bar) as u64,
            out@ + bars_from(bt, vis_end, ticks_per_bar) == whole,
        decreases (if bt > vis_end { 0 } else { vis_end - bt + 1 }),
    {
        let ghost before = out@;
        out.push(bt);
        match bt.checked_add(ticks_per_bar) {
            Some(v) => {
                assert(out@ + bars_from(v, vis_end, ticks_per_bar) =~= before + bars_from(bt, vis_end, ticks_per_bar));
                bt = v;
            },
            None => {
                assert(bars_from(bt, vis_end, ticks_per_bar) == seq![bt]);
                assert(out@ =~= before + bars_from(bt, vis_end, ticks_per_bar));
                assert(out@ =~= whole);
                return out;
            },
        }
    }
    assert(out@ =~= whole);
    out
}

/// Even slots from `s` up to `top`.
pub open spec fn evens_up(s: int, top: int) -> Seq<i32>
    decreases (if s > top { 0 } else { top - s + 1 }),
{
    if s > top { seq![] } else { seq![s as i32] + evens_up(s + 2, top) }
}

/// Even slots from `s` down to `bottom`.
pub open spec fn evens_down(s: int, bottom: int) -> Seq<i32>
    decreases (if s < bottom { 0 } else { s - bottom + 1 }),
{
    if s < bottom { seq![] } else { seq![s as i32] + evens_down(s - 2, bottom) }
}

/// The ledger lines a note at `slot` needs: above the staff (whose top line
/// is slot 10) the lines 12, 14, ... up to the note; below it (bottom line
/// slot 2) middle C's line 0, then -2, ... down to the note.
pub open spec fn spec_ledger_slots(slot: i32) -> Seq<i32> {
    if slot > 10 {
        evens_up(12, if slot % 2 == 0 { slot as int } else { slot - 1 })
    } else if slot <= 0 {
        evens_down(0, if slot % 2 == 0 { slot as int } else { slot + 1 })
    } else {
        seq![]
    }
}

pub fn ledger_slots(slot: i32) -> (r: Vec<i32>)
    requires
        i32::MIN < slot < i32::MAX - 1,
    ensures
        r@ == spec_ledger_slots(slot),
{
    let mut out: Vec<i32> = Vec::new();
    if slot > 10 {
        let top: i32 = if slot % 2 == 0 { slot } else { slot - 1 };
        let mut s: i32 = 12;
        while s <= top
            invariant
                12 <= s <= top + 2,
                top <= i32::MAX - 3,
                out@ + evens_up(s as int, top as int) == evens_up(12, top as int),
            decreases (if s > top { 0 } else { top - s + 1 }),
        {
            let ghost before = out@;
            out.push(s);
            assert(out@ + evens_up(s + 2, top as int) =~= before + evens_up(s as int, top as int));
            s = s + 2;
        }
        assert(out@ =~= evens_up(12, top as int));
    } else if slot <= 0 {
        let bottom: i32 = if slot % 2 == 0 { slot } else { slot + 1 };
        let mut s: i32 = 0;
        while s >= bottom
            invariant
                bottom - 2 <= s <= 0,
                bottom >= i32::MIN + 2,
                out@ + evens_down(s as int, bottom as int) == evens_down(0, bottom as int),
            decreases (if s < bottom { 0 } else { s - bottom + 1 }),
        {
            let ghost before = out@;
            out.push(s);
            assert(out@ + evens_down(s - 2, bottom as int) =~= before + evens_down(s as int, bottom as int));
            s = s - 2;
        }
        assert(out@ =~= evens_down(0, bottom as int));
    }
    out
}

proof fn lemma_evens_up(s: int, top: int)
    requires
        i32::MIN <= s,
        top <= i32::MAX,
    ensures
        evens_up(s, top).len() == if s > top { 0 } else { (top - s) / 2 + 1 },
        forall|i: int| 0 <= i < evens_up(s, top).len() ==> evens_up(s, top)[i] == s + 2 * i,
    decreases (if s > top { 0 } else { top - s + 1 }),
{
    if s <= top {
        lemma_evens_up(s + 2, top);
        let rest = evens_up(s + 2, top);
        assert forall|i: int| 0 <= i < evens_up(s, top).len() implies evens_up(s, top)[i] == s + 2 * i by {
            if i > 0 {
                assert(evens_up(s, top)[i] == rest[i - 1]);
            }
        }
    }
}

proof fn lemma_evens_down(s: int, bottom: int)
    requires
        s <= i32::MAX,
        i32::MIN <= bottom,
    ensures
        evens_down(s, bottom).len() == if s < bottom { 0 } else { (s - bottom) / 2 + 1 },
        forall|i: int| 0 <= i < evens_down(s, bottom).len() ==> evens_down(s, bottom)[i] == s - 2 * i,
    decreases (if s < bottom { 0 } else { s - bottom + 1 }),
{
    if s >= bottom {
        lemma_evens_down(s - 2, bottom);
        let rest = evens_down(s - 2, bottom);
        assert forall|i: int| 0 <= i < evens_down(s, bottom).len() implies evens_down(s, bottom)[i] == s - 2 * i by {
            if i > 0 {
                assert(evens_down(s, bottom)[i] == rest[i - 1]);
            }
        }
    }
}

/// Ledger lines: a note on or between the staff lines (slots 1 to 11) needs
/// none; a higher note needs the lines 12, 14, ... up to the highest line at
/// or below it; a lower one middle C's line 0, then -2, ... down to the
/// lowest line at or above it.
pub proof fn lemma_ledger_lines(slot: i32)
    ensures
        1 <= slot <= 11 ==> spec_ledger_slots(slot).len() == 0,
        slot >= 12 ==> spec_ledger_slots(slot).len() == (slot - 12) / 2 + 1
            && forall|i: int| 0 <= i < spec_ledger_slots(slot).len() ==> spec_ledger_slots(slot)[i] == 12 + 2 * i,
        slot <= 0 ==> spec_ledger_slots(slot).len() == (-slot) / 2 + 1
            && forall|i: int| 0 <= i < spec_ledger_slots(slot).len() ==> spec_ledger_slots(slot)[i] == -2 * i,
{
    if slot > 10 {
        let top: int = if slot % 2 == 0 { slot as int } else { slot - 1 };
        lemma_evens_up(12, top);
    } else if slot <= 0 {
        let bottom: int = if slot % 2 == 0 { slot as int } else { slot + 1 };
        lemma_evens_down(0, bottom);
    }
}

} // verus!

verus! {

use crate::playback::is_muted;

/// How the staff draws one note of the song.
#[derive(Debug, Clone, Copy, PartialEq, Eq, Structural)]
pub struct StaffNote {
    /// The note's index in the song's notes.
    pub index: usize,
    /// The note after the song's and its track's octave shift.
    pub shifted: u8,
    pub slot: i32,
    /// Sounding at the playhead.
    pub is_active: bool,
    /// Over before the playhead.
    pub is_past: bool,
    /// It lands on a key of the board (else a warning ring).
    pub fits: bool,
    /// The stem points up below the middle line (B4, slot 6).
    pub stem_up: bool,
    /// A sharp sign, for a black-key note not yet over.
    pub sharp: bool,
}

/// A note overlapping the visible ticks, on a track that is not muted.
pub open spec fn on_staff(n: Note, vis_start: u64, vis_end: u64, track_muted: Seq<bool>) -> bool {
    !(n.start_tick > vis_end || n.end_tick < vis_start) && !is_muted(track_muted, n.track)
}

pub open spec fn staff_note_of(
    n: Note,
    index: int,
    pos: u64,
    keyboard: Set<u8>,
    drum_pads: Set<u8>,
    octave_offset: i8,
    track_octave: Seq<i8>,
) -> StaffNote {
    let shifted = clamped_shift(n.midi_note, spec_combined_octave_shift(octave_offset, track_octave, n.track) as int);
    let slot = spec_staff_slot(shifted);
    StaffNote {
        index: index as usize,
        shifted,
        slot: slot as i32,
        is_active: n.start_tick <= pos && pos < n.end_tick,
        is_past: n.end_tick <= pos,
        fits: spec_note_fits(n, keyboard, drum_pads, octave_offset, track_octave),
        stem_up: slot < 6,
        sharp: spec_is_sharp(shifted) && !(n.end_tick <= pos),
    }
}

/// The notes on the staff, in song order, among the first `k` notes.
pub open spec fn staff_plan(
    notes: Seq<Note>,
    k: int,
    pos: u64,
    vis_start: u64,
    vis_end: u64,
    track_muted: Seq<bool>,
    keyboard: Set<u8>,
    drum_pads: Set<u8>,
    octave_offset: i8,
    track_octave: Seq<i8>,
) -> Seq<StaffNote>
    decreases k,
{
    if k <= 0 {
        seq![]
    } else {
        let rest = staff_plan(notes, k - 1, pos, vis_start, vis_end, track_muted, keyboard, drum_pads, octave_offset, track_octave);
        if on_staff(notes[k - 1], vis_start, vis_end, track_muted) {
            rest.push(staff_note_of(notes[k - 1], k - 1, pos, keyboard, drum_pads, octave_offset, track_octave))
        } else {
            rest
        }
    }
}

/// Where each plotted note stands: every entry of the staff plan comes from
/// an earlier note of the song, in song order, that overlaps the visible
/// ticks on an unmuted track; it is drawn at its pitch after the octave
/// shifts (its slot is the staff slot of the shifted note, and the stem and
/// the sharp sign follow from that pitch), and it is active or past by the
/// note's own span.
pub proof fn lemma_staff_plan_places_notes(
    notes: Seq<Note>,
    k: int,
    pos: u64,
    vis_start: u64,
    vis_end: u64,
    track_muted: Seq<bool>,
    keyboard: Set<u8>,
    drum_pads: Set<u8>,
    octave_offset: i8,
    track_octave: Seq<i8>,
)
    requires
        0 <= k <= notes.len(),
        notes.len() <= usize::MAX,
    ensures
        ({
            let plan = staff_plan(notes, k, pos, vis_start, vis_end, track_muted, keyboard, drum_pads, octave_offset, track_octave);
            &&& plan.len() <= k
            &&& forall|i: int| #![trigger plan[i]] 0 <= i < plan.len() ==> {
                let p = plan[i];
                let n = notes[p.index as int];
                &&& p.index < k
                &&& on_staff(n, vis_start, vis_end, track_muted)
                &&& p.shifted == clamped_shift(n.midi_note, spec_combined_octave_shift(octave_offset, track_octave, n.track) as int)
                &&& p.slot == spec_staff_slot(p.shifted)
                &&& p.stem_up == (p.slot < 6)
                &&& p.sharp == (spec_is_sharp(p.shifted) && !p.is_past)
                &&& p.is_active == (n.start_tick <= pos && pos < n.end_tick)
                &&& p.is_past == (n.end_tick <= pos)
                &&& p.fits == spec_note_fits(n, keyboard, drum_pads, octave_offset, track_octave)
            }
            &&& forall|i: int, j: int| #![trigger plan[i], plan[j]] 0 <= i < j < plan.len() ==> plan[i].index < plan[j].index
        }),
    decreases k,
{
    if k > 0 {
        lemma_staff_plan_places_notes(notes, k - 1, pos, vis_start, vis_end, track_muted, keyboard, drum_pads, octave_offset, track_octave);
    }
}

/// The notes the staff draws in the visible ticks, with where and how.
pub fn staff_notes(
    notes: &[Note],
    pos: u64,
    vis_start: u64,
    vis_end: u64,
    track_muted: &[bool],
    keyboard_notes: &HashSet<u8>,
    drum_note_to_key: &HashMap<u8, KeyId>,
    octave_offset: i8,
    track_octave: &[i8],
) -> (r: Vec<StaffNote>)
    ensures
        r@ == staff_plan(
            notes@,
            notes@.len() as int,
            pos,
            vis_start,
            vis_end,
            track_muted@,
            keyboard_notes@,
            drum_note_to_key@.dom(),
            octave_offset,
            track_octave@,
        ),
        forall|i: int| 0 <= i < r@.len() ==> {
            &&& (#[trigger] r@[i]).slot == spec_staff_slot(r@[i].shifted)
            &&& r@[i].stem_up == (r@[i].slot < 6)
            &&& r@[i].index < notes@.len()
        },
{
    let mut out: Vec<StaffNote> = Vec::new();
    let mut i: usize = 0;
    while i < notes.len()
        invariant
            0 <= i <= notes@.len(),
            out@ == staff_plan(
                notes@,
                i as int,
                pos,
                vis_start,
                vis_end,
                track_muted@,
                keyboard_notes@,
                drum_note_to_key@.dom(),
                octave_offset,
                track_octave@,
            ),
        decreases notes@.len() - i,
    {
        let n = notes[i];
        let muted = n.track < track_muted.len() && track_muted[n.track];
        if !(n.start_tick > vis_end || n.end_tick < vis_start) && !muted {
            let shift = combined_octave_shift(octave_offset, track_octave, n.track);
            let s: i16 = n.midi_note as i16 + shift;
            let shifted: u8 = if s < 0 {
                0
            } else if s > 127 {
                127
            } else {
                s as u8
            };
            let slot = staff_slot(shifted);
            let is_past = n.end_tick <= pos;
            out.push(StaffNote {
                index: i,
                shifted,
                slot,
                is_active: n.start_tick <= pos && pos < n.end_tick,
                is_past,
                fits: note_fits(&n, keyboard_notes, drum_note_to_key, octave_offset, track_octave),
                stem_up: slot < 6,
                sharp: is_sharp(shifted) && !is_past,
            });
        }
        i = i + 1;
    }
    proof {
        lemma_staff_plan_places_notes(
            notes@,
            notes@.len() as int,
            pos,
            vis_start,
            vis_end,
            track_muted@,
            keyboard_notes@,
            drum_note_to_key@.dom(),
            octave_offset,
            track_octave@,
        );
    }
    out
}

/// The order the staff paints note heads in: the notes not sounding first,
/// then the sounding ones, each group in song order, so a sounding note is
/// never hidden under a nearby one.
pub open spec fn paint_order(plotted: Seq<StaffNote>) -> Seq<int> {
    Seq::new(plotted.len(), |i: int| i).filter(|i: int| !plotted[i].is_active)
        + Seq::new(plotted.len(), |i: int| i).filter(|i: int| plotted[i].is_active)
}

pub fn foreground_order(plotted: &[StaffNote]) -> (r: Vec<usize>)
    ensures
        r@.map_values(|i: usize| i as int) == paint_order(plotted@),
{
    let ghost all = Seq::new(plotted@.len(), |i: int| i);
    let mut quiet: Vec<usize> = Vec::new();
    let mut sounding: Vec<usize> = Vec::new();
    let mut i: usize = 0;
    while i < plotted.len()
        invariant
            0 <= i <= plotted@.len(),
            all == Seq::new(plotted@.len(), |i: int| i),
            quiet@.map_values(|i: usize| i as int) == all.take(i as int).filter(|i: int| !plotted@[i].is_active),
            sounding@.map_values(|i: usize| i as int) == all.take(i as int).filter(|i: int| plotted@[i].is_active),
        decreases plotted@.len() - i,
    {
        proof {
            assert(all.take(i + 1).drop_last() =~= all.take(i as int));
            assert(all.take(i + 1).last() == i as int);
            reveal(Seq::filter);
        }
        let ghost q0 = quiet@;
        let ghost s0 = sounding@;
        if plotted[i].is_active {
            sounding.push(i);
            assert(sounding@.map_values(|i: usize| i as int) =~= s0.map_values(|i: usize| i as int).push(i as int));
        } else {
            quiet.push(i);
            assert(quiet@.map_values(|i: usize| i as int) =~= q0.map_values(|i: usize| i as int).push(i as int));
        }
        i = i + 1;
    }
    assert(all.take(plotted@.len() as int) =~= all);
    let ghost q = quiet@;
    let mut j: usize = 0;
    while j < sounding.len()
        invariant
            0 <= j <= sounding@.len(),
            quiet@ == q + sounding@.take(j as int),
        decreases sounding@.len() - j,
    {
        quiet.push(sounding[j]);
        assert(sounding@.take(j + 1) =~= sounding@.take(j as int).push(sounding@[j as int]));
        j = j + 1;
    }
    assert(sounding@.take(sounding@.len() as int) =~= sounding@);
    assert(quiet@.map_values(|i: usize| i as int) =~= q.map_values(|i: usize| i as int) + sounding@.map_values(|i: usize| i as int));
    quiet
}

} // verus!
