//! Which board key lights up for a note: the key choice among the rows a
//! note repeats on, the nearest key for notes off the keyboard, and the
//! highlight maps for the whole song and for a staff selection.
use vstd::prelude::*;
use std::collections::{HashMap, HashSet};
use crate::controls::{pick_key_fixed, KeyPickMode};
use crate::key::{Key, KeyId};
use crate::midi::{combined_octave_shift, spec_combined_octave_shift, Note};
use crate::staff::clamped_shift;

verus! {

/// The pitch a note of `track` lands on once the song's offset and the
/// track's octave shift apply, clamped to 0..=127.
pub open spec fn spec_shifted_note(note: u8, octave_offset: i8, track_octave: Seq<i8>, track: usize) -> u8 {
    clamped_shift(note, spec_combined_octave_shift(octave_offset, track_octave, track) as int)
}

pub fn shifted_note(midi_note: u8, octave_offset: i8, track_octave: &[i8], track: usize) -> (r: u8)
    ensures
        r == spec_shifted_note(midi_note, octave_offset, track_octave@, track),
{
    let shift = combined_octave_shift(octave_offset, track_octave, track);
    let s: i32 = midi_note as i32 + shift as i32;
    if s < 0 {
        0
    } else if s > 127 {
        127
    } else {
        s as u8
    }
}

/// Strictly increasing.
pub open spec fn ascending(s: Seq<u8>) -> bool {
    forall|i: int, j: int| 0 <= i < j < s.len() ==> s[i] < s[j]
}

/// The keyboard's notes in ascending order.
pub fn sorted_keyboard_notes(keyboard_notes: &HashSet<u8>) -> (r: Vec<u8>)
    ensures
        ascending(r@),
        forall|n: u8| r@.contains(n) <==> keyboard_notes@.contains(n),
{
    broadcast use vstd::std_specs::hash::group_hash_axioms;

    let mut out: Vec<u8> = Vec::new();
    let mut n: u16 = 0;
    while n < 256
        invariant
            0 <= n <= 256,
            ascending(out@),
            forall|i: int| 0 <= i < out@.len() ==> out@[i] < n,
            forall|m: u8| out@.contains(m) <==> (m < n && keyboard_notes@.contains(m)),
        decreases 256 - n,
    {
        let m = n as u8;
        if keyboard_notes.contains(&m) {
            let ghost before = out@;
            out.push(m);
            proof {
                assert forall|x: u8| out@.contains(x) <==> (x < n + 1 && keyboard_notes@.contains(x)) by {
                    if x == m {
                        assert(out@[out@.len() - 1] == m);
                    }
                    if out@.contains(x) && x != m {
                        let i = choose|i: int| 0 <= i < out@.len() && out@[i] == x;
                        assert(before[i] == x);
                    }
                    if x < m && keyboard_notes@.contains(x) {
                        assert(before.contains(x));
                        let i = choose|i: int| 0 <= i < before.len() && before[i] == x;
                        assert(out@[i] == x);
                    }
                }
            }
        } else {
            proof {
                assert forall|x: u8| out@.contains(x) <==> (x < n + 1 && keyboard_notes@.contains(x)) by {
                    if out@.contains(x) {
                        let i = choose|i: int| 0 <= i < out@.len() && out@[i] == x;
                        assert(out@[i] < n);
                    }
                }
            }
        }
        n = n + 1;
    }
    out
}

/// Number of entries of `s` below `note` (where an ascending list is cut).
pub open spec fn count_below(s: Seq<u8>, note: u8) -> int
    decreases s.len(),
{
    if s.len() == 0 {
        0
    } else {
        count_below(s.drop_last(), note) + if s.last() < note { 1int } else { 0int }
    }
}

pub open spec fn note_distance(a: u8, b: u8) -> int {
    if a >= b { a - b } else { b - a }
}

/// The keyboard note nearest to `note` in the ascending list `s`; of two
/// equally near, the lower; none for an empty list.
pub open spec fn nearest_in(s: Seq<u8>, note: u8) -> Option<u8> {
    let pos = count_below(s, note);
    if s.len() == 0 {
        None
    } else if pos == 0 {
        Some(s[0])
    } else if pos >= s.len() {
        Some(s[s.len() - 1])
    } else if note - s[pos - 1] <= s[pos] - note {
        Some(s[pos - 1])
    } else {
        Some(s[pos])
    }
}

proof fn lemma_count_below_ascending(s: Seq<u8>, note: u8)
    requires
        ascending(s),
    ensures
        0 <= count_below(s, note) <= s.len(),
        forall|i: int| 0 <= i < count_below(s, note) ==> s[i] < note,
        forall|i: int| count_below(s, note) <= i < s.len() ==> s[i] >= note,
    decreases s.len(),
{
    if s.len() > 0 {
        let t = s.drop_last();
        assert(ascending(t));
        lemma_count_below_ascending(t, note);
        if s.last() < note {
            assert forall|i: int| 0 <= i < count_below(t, note) implies s[i] < note by {
                assert(s[i] == t[i]);
            }
            assert forall|i: int| 0 <= i < t.len() implies s[i] < note by {
                assert(s[i] < s[s.len() - 1]);
            }
        } else {
            assert forall|i: int| 0 <= i < count_below(t, note) implies s[i] < note by {
                assert(s[i] == t[i]);
            }
            assert forall|i: int| count_below(t, note) <= i < s.len() implies s[i] >= note by {
                if i < t.len() {
                    assert(s[i] == t[i]);
                }
            }
        }
    }
}

/// The nearest keyboard note to `note` (the lower of two equally near).
pub fn nearest_keyboard_note(sorted: &[u8], note: u8) -> (r: Option<u8>)
    requires
        ascending(sorted@),
    ensures
        r == nearest_in(sorted@, note),
        r is None <==> sorted@.len() == 0,
        r matches Some(n) ==> {
            &&& sorted@.contains(n)
            &&& forall|i: int|
                0 <= i < sorted@.len() ==> note_distance(n, note) <= note_distance(sorted@[i], note)
                    && (note_distance(n, note) == note_distance(sorted@[i], note) ==> n <= sorted@[i])
        },
{
    proof {
        lemma_count_below_ascending(sorted@, note);
    }
    if sorted.len() == 0 {
        return None;
    }
    let mut low: usize = 0;
    let mut high: usize = sorted.len();
    while low < high
        invariant
            0 <= low <= high <= sorted@.len(),
            ascending(sorted@),
            forall|i: int| 0 <= i < low ==> sorted@[i] < note,
            forall|i: int| high <= i < sorted@.len() ==> sorted@[i] >= note,
        decreases high - low,
    {
        let mid = low + (high - low) / 2;
        if sorted[mid] < note {
            low = mid + 1;
        } else {
            high = mid;
        }
    }
    let pos = low;
    proof {
        let c = count_below(sorted@, note);
        if pos < c {
            assert(sorted@[pos as int] < note);
        } else if c < pos {
            assert(sorted@[c] >= note);
        }
        assert(pos == c);
    }
    let r = if pos == 0 {
        sorted[0]
    } else if pos == sorted.len() {
        sorted[sorted.len() - 1]
    } else {
        let below = sorted[pos - 1];
        let above = sorted[pos];
        if note - below <= above - note { below } else { above }
    };
    proof {
        assert(sorted@[sorted@.len() - 1] == sorted@[sorted@.len() - 1]);
        let k = if pos == 0 { 0 } else if pos == sorted@.len() { sorted@.len() - 1 } else if note - sorted@[pos - 1] <= sorted@[pos as int] - note { pos - 1 } else { pos as int };
        assert(sorted@[k] == r);
        assert forall|i: int|
            0 <= i < sorted@.len() implies note_distance(r, note) <= note_distance(sorted@[i], note)
                && (note_distance(r, note) == note_distance(sorted@[i], note) ==> r <= sorted@[i]) by {
            if i < pos {
                if pos > 0 {
                    assert(sorted@[i] <= sorted@[pos - 1]);
                }
            } else {
                if pos < sorted@.len() {
                    assert(sorted@[i] >= sorted@[pos as int]);
                }
            }
        }
    }
    Some(r)
}

} // verus!

verus! {

/// No two keys share an id.
pub open spec fn unique_ids(keys: Seq<Key>) -> bool {
    forall|i: int, j: int| 0 <= i < j < keys.len() ==> keys[i].id != keys[j].id
}

/// Index of the key with this id, from `i` on; the length when there is none.
pub open spec fn key_index(keys: Seq<Key>, id: KeyId, i: int) -> int
    decreases keys.len() - i,
{
    if i < 0 || i >= keys.len() {
        keys.len() as int
    } else if keys[i].id == id {
        i
    } else {
        key_index(keys, id, i + 1)
    }
}

proof fn lemma_key_index(keys: Seq<Key>, id: KeyId, i: int)
    requires
        0 <= i <= keys.len(),
    ensures
        i <= key_index(keys, id, i) <= keys.len(),
        key_index(keys, id, i) < keys.len() ==> keys[key_index(keys, id, i)].id == id,
        forall|j: int| i <= j < key_index(keys, id, i) ==> keys[j].id != id,
    decreases keys.len() - i,
{
    if i < keys.len() && keys[i].id != id {
        lemma_key_index(keys, id, i + 1);
    }
}

fn find_key(keys: &[Key], id: KeyId) -> (r: usize)
    ensures
        r == key_index(keys@, id, 0),
{
    proof {
        lemma_key_index(keys@, id, 0);
    }
    let mut i: usize = 0;
    while i < keys.len()
        invariant
            0 <= i <= keys@.len(),
            key_index(keys@, id, 0) == key_index(keys@, id, i as int),
        ensures
            i == key_index(keys@, id, 0),
        decreases keys@.len() - i,
    {
        if keys[i].id == id {
            break;
        }
        i = i + 1;
    }
    i
}

/// Squared distance between two keys' positions (column, row).
pub open spec fn sq_dist(a: Key, b: Key) -> int {
    (a.col - b.col) * (a.col - b.col) + (a.row - b.row) * (a.row - b.row)
}

/// Squared distance from `from` to the nearest of the first `n` keys whose
/// id is placed; `u64::MAX` when none is.
pub open spec fn nearest_placed(keys: Seq<Key>, placed: Set<u32>, from: Key, n: int) -> int
    decreases n,
{
    if n <= 0 {
        u64::MAX as int
    } else {
        let rest = nearest_placed(keys, placed, from, n - 1);
        let k = keys[n - 1];
        if placed.contains(k.id.0) && sq_dist(from, k) < rest { sq_dist(from, k) } else { rest }
    }
}

/// How far a candidate key is from the keys already placed (squared); keys
/// not on the board count as infinitely far.
pub open spec fn placed_distance(keys: Seq<Key>, placed: Set<u32>, id: KeyId) -> int {
    let p = key_index(keys, id, 0);
    if p >= keys.len() { u64::MAX as int } else { nearest_placed(keys, placed, keys[p], keys.len() as int) }
}

/// Index of the first of `kids[0..n]` nearest to the placed keys.
pub open spec fn nearest_kid(kids: Seq<KeyId>, keys: Seq<Key>, placed: Set<u32>, n: int) -> int
    decreases n,
{
    if n <= 1 {
        0
    } else {
        let best = nearest_kid(kids, keys, placed, n - 1);
        if placed_distance(keys, placed, kids[n - 1]) < placed_distance(keys, placed, kids[best]) {
            n - 1
        } else {
            best
        }
    }
}

/// Closest mode without lookahead: the candidate nearest to any key already
/// placed (the first of equally near ones); the last candidate when nothing
/// is placed yet; the only one when there is one.
pub open spec fn spec_pick_nearest(kids: Seq<KeyId>, keys: Seq<Key>, placed: Map<u32, usize>) -> Option<KeyId> {
    if kids.len() == 0 {
        None
    } else if kids.len() == 1 {
        Some(kids[0])
    } else if placed.is_empty() {
        Some(kids[kids.len() - 1])
    } else {
        Some(kids[nearest_kid(kids, keys, placed.dom(), kids.len() as int)])
    }
}

fn distance_to_placed(keys: &[Key], placed: &HashMap<u32, usize>, id: KeyId) -> (r: u64)
    ensures
        r == placed_distance(keys@, placed@.dom(), id),
{
    broadcast use vstd::std_specs::hash::group_hash_axioms;

    let p = find_key(keys, id);
    if p >= keys.len() {
        return u64::MAX;
    }
    let from = &keys[p];
    let mut best: u64 = u64::MAX;
    let mut i: usize = 0;
    while i < keys.len()
        invariant
            0 <= i <= keys@.len(),
            p < keys@.len(),
            *from == keys@[p as int],
            best == nearest_placed(keys@, placed@.dom(), *from, i as int),
        decreases keys@.len() - i,
    {
        let k = &keys[i];
        if placed.contains_key(&k.id.0) {
            let dc: u64 = if from.col >= k.col { (from.col - k.col) as u64 } else { (k.col - from.col) as u64 };
            let dr: u64 = if from.row >= k.row { (from.row - k.row) as u64 } else { (k.row - from.row) as u64 };
            assert(dc * dc <= 65535 * 65535 && dr * dr <= 65535 * 65535) by (nonlinear_arith)
                requires
                    dc <= 65535,
                    dr <= 65535,
            ;
            let d = dc * dc + dr * dr;
            assert(d == sq_dist(*from, *k)) by (nonlinear_arith)
                requires
                    d == dc * dc + dr * dr,
                    dc == if from.col >= k.col { from.col - k.col } else { k.col - from.col },
                    dr == if from.row >= k.row { from.row - k.row } else { k.row - from.row },
            ;
            if d < best {
                best = d;
            }
        }
        i = i + 1;
    }
    best
}

/// Closest mode without lookahead (live input, or the nearest-key fallback):
/// the candidate nearest to any key already placed.
pub fn pick_key_nearest(kids: &[KeyId], keys: &[Key], placed: &HashMap<u32, usize>) -> (r: Option<KeyId>)
    ensures
        r == spec_pick_nearest(kids@, keys@, placed@),
{
    if kids.len() == 0 {
        return None;
    }
    if kids.len() == 1 {
        return Some(kids[0]);
    }
    if placed.is_empty() {
        return Some(kids[kids.len() - 1]);
    }
    let mut best: usize = 0;
    let mut best_d = distance_to_placed(keys, placed, kids[0]);
    let mut i: usize = 1;
    while i < kids.len()
        invariant
            1 <= i <= kids@.len(),
            best == nearest_kid(kids@, keys@, placed@.dom(), i as int),
            best < i,
            best_d == placed_distance(keys@, placed@.dom(), kids@[best as int]),
        decreases kids@.len() - i,
    {
        let d = distance_to_placed(keys, placed, kids[i]);
        if d < best_d {
            best = i;
            best_d = d;
        }
        i = i + 1;
    }
    Some(kids[best])
}

} // verus!

verus! {

use crate::synth::DRUM_CHANNEL;

/// The board's lookups from notes to keys.
pub struct BoardMaps<'a> {
    pub keys: &'a [Key],
    /// All keys of each note, top row first.
    pub note_to_all_keys: &'a HashMap<u8, Vec<KeyId>>,
    /// GM percussion note -> drum pad key.
    pub drum_note_to_key: &'a HashMap<u8, KeyId>,
    /// The keyboard's notes in ascending order.
    pub keyboard_notes_sorted: &'a [u8],
}

/// The board's lookups hold together: key ids are unique and the note list
/// is ascending.
pub open spec fn maps_ok(b: BoardMaps) -> bool {
    &&& unique_ids(b.keys@)
    &&& ascending(b.keyboard_notes_sorted@)
}

/// A fixed preference among a note's keys.
pub open spec fn spec_pick_fixed(kids: Seq<KeyId>, mode: KeyPickMode) -> Option<KeyId> {
    if kids.len() == 0 {
        None
    } else if mode == KeyPickMode::UpDown {
        Some(kids[0])
    } else {
        Some(kids[kids.len() - 1])
    }
}

/// The key chosen among `kids` in `mode`, nearest to `placed` in Closest mode.
pub open spec fn pick_among(kids: Seq<KeyId>, mode: KeyPickMode, keys: Seq<Key>, placed: Map<u32, usize>) -> Option<KeyId> {
    if mode == KeyPickMode::Closest {
        spec_pick_nearest(kids, keys, placed)
    } else {
        spec_pick_fixed(kids, mode)
    }
}

fn pick_in_mode(kids: &[KeyId], mode: KeyPickMode, keys: &[Key], placed: &HashMap<u32, usize>) -> (r: Option<KeyId>)
    ensures
        r == pick_among(kids@, mode, keys@, placed@),
{
    if mode == KeyPickMode::Closest {
        pick_key_nearest(kids, keys, placed)
    } else {
        pick_key_fixed(kids, mode)
    }
}

/// The key a note played live lights, and whether it is off the keyboard
/// (then the nearest keyboard note's key lights as a warning): a drum pad on
/// the percussion channel; otherwise one of the note's keys, or of the
/// nearest keyboard note's keys.
pub open spec fn live_note_key(
    b: BoardMaps,
    mode: KeyPickMode,
    placed: Map<u32, usize>,
    note: u8,
    channel: u8,
) -> Option<(KeyId, bool)> {
    let notes = b.note_to_all_keys@;
    if channel == DRUM_CHANNEL {
        if b.drum_note_to_key@.contains_key(note) { Some((b.drum_note_to_key@[note], false)) } else { None }
    } else if notes.contains_key(note) {
        match pick_among(notes[note]@, mode, b.keys@, placed) {
            Some(k) => Some((k, false)),
            None => None,
        }
    } else {
        match nearest_in(b.keyboard_notes_sorted@, note) {
            Some(near) => if notes.contains_key(near) {
                match pick_among(notes[near]@, mode, b.keys@, placed) {
                    Some(k) => Some((k, true)),
                    None => None,
                }
            } else {
                None
            },
            None => None,
        }
    }
}

/// The key a note from a MIDI input lights, and whether it is a warning.
pub fn live_midi_key_for_note(
    b: &BoardMaps,
    mode: KeyPickMode,
    placed: &HashMap<u32, usize>,
    note: u8,
    channel: u8,
) -> (r: Option<(KeyId, bool)>)
    requires
        maps_ok(*b),
    ensures
        r == live_note_key(*b, mode, placed@, note, channel),
{
    broadcast use vstd::std_specs::hash::group_hash_axioms;

    if channel == DRUM_CHANNEL {
        return match b.drum_note_to_key.get(&note) {
            Some(k) => Some((*k, false)),
            None => None,
        };
    }
    match b.note_to_all_keys.get(&note) {
        Some(kids) => {
            return match pick_in_mode(kids.as_slice(), mode, b.keys, placed) {
                Some(k) => Some((k, false)),
                None => None,
            };
        },
        None => {},
    }
    let near = match nearest_keyboard_note(b.keyboard_notes_sorted, note) {
        Some(n) => n,
        None => return None,
    };
    match b.note_to_all_keys.get(&near) {
        Some(kids) => match pick_in_mode(kids.as_slice(), mode, b.keys, placed) {
            Some(k) => Some((k, true)),
            None => None,
        },
        None => None,
    }
}

/// How the song's notes are routed onto the board.
pub struct NoteRouting<'a> {
    pub mode: KeyPickMode,
    pub octave_offset: i8,
    pub track_octave: &'a [i8],
    pub track_muted: &'a [bool],
    /// Closest mode's precomputed key for each shifted note.
    pub closest_key_for_note: &'a HashMap<u8, KeyId>,
}

pub open spec fn track_is_muted(track_muted: Seq<bool>, track: usize) -> bool {
    track < track_muted.len() && track_muted[track as int]
}

/// The highlight value that marks a key lit as the nearest stand-in for a
/// note off the keyboard.
pub const WARNING_TRACK: usize = usize::MAX - 1;

/// A note counts when its track is unmuted and it overlaps the window (all
/// notes when there is no window).
pub open spec fn counted(r: NoteRouting, window: Option<(u64, u64)>, n: Note) -> bool {
    &&& !track_is_muted(r.track_muted@, n.track)
    &&& match window {
        Some((s, e)) => n.start_tick < e && n.end_tick > s,
        None => true,
    }
}

pub open spec fn shifted_of(r: NoteRouting, n: Note) -> u8 {
    spec_shifted_note(n.midi_note, r.octave_offset, r.track_octave@, n.track)
}

/// The key a note lights in the first pass: its drum pad, or in Closest
/// mode the precomputed key of its shifted pitch, or else the fixed choice
/// among the keys of its shifted pitch.
pub open spec fn first_pass_key(b: BoardMaps, r: NoteRouting, n: Note) -> Option<KeyId> {
    if n.channel == DRUM_CHANNEL {
        if b.drum_note_to_key@.contains_key(n.midi_note) { Some(b.drum_note_to_key@[n.midi_note]) } else { None }
    } else {
        let s = shifted_of(r, n);
        if r.mode == KeyPickMode::Closest {
            if r.closest_key_for_note@.contains_key(s) { Some(r.closest_key_for_note@[s]) } else { None }
        } else if b.note_to_all_keys@.contains_key(s) {
            spec_pick_fixed(b.note_to_all_keys@[s]@, r.mode)
        } else {
            None
        }
    }
}

/// The note's start tick added to key `k`'s list (a new entry for a new key).
pub open spec fn add_tick(ticks: Seq<(KeyId, Seq<u64>)>, k: KeyId, t: u64) -> Seq<(KeyId, Seq<u64>)> {
    let i = tick_entry(ticks, k, 0);
    if i < ticks.len() {
        ticks.update(i, (k, ticks[i].1.push(t)))
    } else {
        ticks.push((k, seq![t]))
    }
}

/// Index of key `k`'s entry from `i` on; the length when it has none.
pub open spec fn tick_entry(ticks: Seq<(KeyId, Seq<u64>)>, k: KeyId, i: int) -> int
    decreases ticks.len() - i,
{
    if i < 0 || i >= ticks.len() {
        ticks.len() as int
    } else if ticks[i].0 == k {
        i
    } else {
        tick_entry(ticks, k, i + 1)
    }
}

/// The highlight map (key id -> track) and the start ticks per key after
/// the first pass over the first `n` notes.
pub open spec fn first_pass(b: BoardMaps, r: NoteRouting, window: Option<(u64, u64)>, notes: Seq<Note>, n: int) -> (Map<u32, usize>, Seq<(KeyId, Seq<u64>)>)
    decreases n,
{
    if n <= 0 {
        (Map::empty(), seq![])
    } else {
        let (m, ticks) = first_pass(b, r, window, notes, n - 1);
        let note = notes[n - 1];
        if counted(r, window, note) {
            match first_pass_key(b, r, note) {
                Some(k) => (m.insert(k.0, note.track), add_tick(ticks, k, note.start_tick)),
                None => (m, ticks),
            }
        } else {
            (m, ticks)
        }
    }
}

/// The key that stands in for a melodic note off the keyboard, given what
/// is already lit: one of the nearest keyboard note's keys.
pub open spec fn fallback_key(b: BoardMaps, r: NoteRouting, lit: Map<u32, usize>, n: Note) -> Option<KeyId> {
    let s = shifted_of(r, n);
    if n.channel == DRUM_CHANNEL || b.note_to_all_keys@.contains_key(s) {
        None
    } else {
        match nearest_in(b.keyboard_notes_sorted@, s) {
            Some(near) => if b.note_to_all_keys@.contains_key(near) {
                pick_among(b.note_to_all_keys@[near]@, r.mode, b.keys@, lit)
            } else {
                None
            },
            None => None,
        }
    }
}

/// The second pass over the first `n` notes: off-keyboard notes light their
/// stand-in key as a warning, unless that key is already lit.
pub open spec fn second_pass(
    b: BoardMaps,
    r: NoteRouting,
    window: Option<(u64, u64)>,
    notes: Seq<Note>,
    start: (Map<u32, usize>, Seq<(KeyId, Seq<u64>)>),
    n: int,
) -> (Map<u32, usize>, Seq<(KeyId, Seq<u64>)>)
    decreases n,
{
    if n <= 0 {
        start
    } else {
        let (m, ticks) = second_pass(b, r, window, notes, start, n - 1);
        let note = notes[n - 1];
        if counted(r, window, note) {
            match fallback_key(b, r, m, note) {
                Some(k) => (
                    if m.contains_key(k.0) { m } else { m.insert(k.0, WARNING_TRACK) },
                    add_tick(ticks, k, note.start_tick),
                ),
                None => (m, ticks),
            }
        } else {
            (m, ticks)
        }
    }
}

/// Both passes over all of `notes`.
pub open spec fn highlight_of(b: BoardMaps, r: NoteRouting, window: Option<(u64, u64)>, notes: Seq<Note>) -> (Map<u32, usize>, Seq<(KeyId, Seq<u64>)>) {
    second_pass(b, r, window, notes, first_pass(b, r, window, notes, notes.len() as int), notes.len() as int)
}

pub open spec fn ticks_view(v: Seq<(KeyId, Vec<u64>)>) -> Seq<(KeyId, Seq<u64>)> {
    v.map_values(|e: (KeyId, Vec<u64>)| (e.0, e.1@))
}

} // verus!

verus! {

fn note_counted(r: &NoteRouting, window: Option<(u64, u64)>, n: &Note) -> (c: bool)
    ensures
        c == counted(*r, window, *n),
{
    let muted = n.track < r.track_muted.len() && r.track_muted[n.track];
    if muted {
        return false;
    }
    match window {
        Some((s, e)) => n.start_tick < e && n.end_tick > s,
        None => true,
    }
}

fn first_key(b: &BoardMaps, r: &NoteRouting, n: &Note) -> (k: Option<KeyId>)
    ensures
        k == first_pass_key(*b, *r, *n),
{
    broadcast use vstd::std_specs::hash::group_hash_axioms;

    if n.channel == DRUM_CHANNEL {
        return match b.drum_note_to_key.get(&n.midi_note) {
            Some(k) => Some(*k),
            None => None,
        };
    }
    let s = shifted_note(n.midi_note, r.octave_offset, r.track_octave, n.track);
    if r.mode == KeyPickMode::Closest {
        match r.closest_key_for_note.get(&s) {
            Some(k) => Some(*k),
            None => None,
        }
    } else {
        match b.note_to_all_keys.get(&s) {
            Some(kids) => pick_key_fixed(kids.as_slice(), r.mode),
            None => None,
        }
    }
}

fn fallback(b: &BoardMaps, r: &NoteRouting, lit: &HashMap<u32, usize>, n: &Note) -> (k: Option<KeyId>)
    requires
        maps_ok(*b),
    ensures
        k == fallback_key(*b, *r, lit@, *n),
{
    broadcast use vstd::std_specs::hash::group_hash_axioms;

    let s = shifted_note(n.midi_note, r.octave_offset, r.track_octave, n.track);
    if n.channel == DRUM_CHANNEL || b.note_to_all_keys.contains_key(&s) {
        return None;
    }
    let near = match nearest_keyboard_note(b.keyboard_notes_sorted, s) {
        Some(near) => near,
        None => return None,
    };
    match b.note_to_all_keys.get(&near) {
        Some(kids) => pick_in_mode(kids.as_slice(), r.mode, b.keys, lit),
        None => None,
    }
}

fn find_tick_entry(ticks: &Vec<(KeyId, Vec<u64>)>, k: KeyId) -> (i: usize)
    ensures
        i == tick_entry(ticks_view(ticks@), k, 0),
{
    let ghost v = ticks_view(ticks@);
    let mut i: usize = 0;
    while i < ticks.len()
        invariant
            0 <= i <= ticks@.len(),
            v == ticks_view(ticks@),
            tick_entry(v, k, 0) == tick_entry(v, k, i as int),
        ensures
            i == tick_entry(v, k, 0),
        decreases ticks@.len() - i,
    {
        if ticks[i].0 == k {
            break;
        }
        i = i + 1;
    }
    i
}

fn record_tick(ticks: &mut Vec<(KeyId, Vec<u64>)>, k: KeyId, t: u64)
    ensures
        ticks_view(final(ticks)@) == add_tick(ticks_view(old(ticks)@), k, t),
{
    let i = find_tick_entry(ticks, k);
    if i < ticks.len() {
        let mut list = ticks[i].1.clone();
        assert(list@ =~= ticks@[i as int].1@);
        list.push(t);
        ticks.set(i, (k, list));
        assert(ticks_view(ticks@) =~= add_tick(ticks_view(old(ticks)@), k, t));
    } else {
        let mut list: Vec<u64> = Vec::new();
        list.push(t);
        ticks.push((k, list));
        assert(ticks_view(ticks@) =~= add_tick(ticks_view(old(ticks)@), k, t));
    }
}

fn highlight_pass(b: &BoardMaps, r: &NoteRouting, window: Option<(u64, u64)>, notes: &[Note]) -> (res: (HashMap<u32, usize>, Vec<(KeyId, Vec<u64>)>))
    requires
        maps_ok(*b),
    ensures
        (res.0@, ticks_view(res.1@)) == highlight_of(*b, *r, window, notes@),
{
    broadcast use vstd::std_specs::hash::group_hash_axioms;

    let mut lit: HashMap<u32, usize> = HashMap::new();
    let mut ticks: Vec<(KeyId, Vec<u64>)> = Vec::new();
    assert(ticks_view(ticks@) =~= Seq::<(KeyId, Seq<u64>)>::empty());
    assert(lit@ =~= Map::<u32, usize>::empty());
    let mut i: usize = 0;
    while i < notes.len()
        invariant
            0 <= i <= notes@.len(),
            (lit@, ticks_view(ticks@)) == first_pass(*b, *r, window, notes@, i as int),
        decreases notes@.len() - i,
    {
        let n = &notes[i];
        if note_counted(r, window, n) {
            match first_key(b, r, n) {
                Some(k) => {
                    lit.insert(k.0, n.track);
                    record_tick(&mut ticks, k, n.start_tick);
                },
                None => {},
            }
        }
        i = i + 1;
    }
    let ghost start = (lit@, ticks_view(ticks@));
    let mut j: usize = 0;
    while j < notes.len()
        invariant
            maps_ok(*b),
            0 <= j <= notes@.len(),
            start == first_pass(*b, *r, window, notes@, notes@.len() as int),
            (lit@, ticks_view(ticks@)) == second_pass(*b, *r, window, notes@, start, j as int),
        decreases notes@.len() - j,
    {
        let n = &notes[j];
        if note_counted(r, window, n) {
            match fallback(b, r, &lit, n) {
                Some(k) => {
                    if !lit.contains_key(&k.0) {
                        lit.insert(k.0, WARNING_TRACK);
                    }
                    record_tick(&mut ticks, k, n.start_tick);
                },
                None => {},
            }
        }
        j = j + 1;
    }
    (lit, ticks)
}

/// The keys lit when every note of the song is shown (key id -> track; a
/// warning for stand-ins of notes off the keyboard).
pub fn all_notes_highlight(b: &BoardMaps, r: &NoteRouting, notes: &[Note]) -> (lit: HashMap<u32, usize>)
    requires
        maps_ok(*b),
    ensures
        lit@ == highlight_of(*b, *r, None, notes@).0,
{
    highlight_pass(b, r, None, notes).0
}

/// The keys lit for the notes under a staff selection from `start` to `end`
/// (at least one tick wide), and the start ticks of the notes each key plays.
pub fn selection_highlight(b: &BoardMaps, r: &NoteRouting, notes: &[Note], start: u64, end: u64) -> (res: (HashMap<u32, usize>, Vec<(KeyId, Vec<u64>)>))
    requires
        maps_ok(*b),
        start < u64::MAX,
    ensures
        (res.0@, ticks_view(res.1@)) == highlight_of(*b, *r, Some((start, if end > start + 1 { end } else { (start + 1) as u64 })), notes@),
{
    let e = if end > start + 1 { end } else { start + 1 };
    highlight_pass(b, r, Some((start, e)), notes)
}

} // verus!

verus! {

/// The notes Closest mode solves over, in song order: each unmuted melodic
/// note whose shifted pitch is on the keyboard, with that pitch's keys.
pub open spec fn closest_stages_of(b: BoardMaps, r: NoteRouting, notes: Seq<Note>, n: int) -> Seq<(u8, Seq<KeyId>)>
    decreases n,
{
    if n <= 0 {
        seq![]
    } else {
        let rest = closest_stages_of(b, r, notes, n - 1);
        let note = notes[n - 1];
        let s = shifted_of(r, note);
        if !track_is_muted(r.track_muted@, note.track) && note.channel != DRUM_CHANNEL
            && b.note_to_all_keys@.contains_key(s) {
            rest.push((s, b.note_to_all_keys@[s]@))
        } else {
            rest
        }
    }
}

/// The stages of Closest mode's key assignment (none outside Closest mode):
/// the shifted pitches, and for each the keys it may light.
pub fn closest_stages(b: &BoardMaps, r: &NoteRouting, notes: &[Note]) -> (res: (Vec<u8>, Vec<Vec<KeyId>>))
    ensures
        res.0@.len() == res.1@.len(),
        r.mode != KeyPickMode::Closest ==> res.0@.len() == 0,
        r.mode == KeyPickMode::Closest ==> {
            let st = closest_stages_of(*b, *r, notes@, notes@.len() as int);
            &&& res.0@.len() == st.len()
            &&& forall|i: int| 0 <= i < st.len() ==> res.0@[i] == st[i].0
            &&& forall|i: int| 0 <= i < st.len() ==> (#[trigger] res.1@[i])@ == st[i].1
        },
{
    broadcast use vstd::std_specs::hash::group_hash_axioms;

    let mut pitches: Vec<u8> = Vec::new();
    let mut stages: Vec<Vec<KeyId>> = Vec::new();
    if r.mode != KeyPickMode::Closest {
        return (pitches, stages);
    }
    let mut i: usize = 0;
    while i < notes.len()
        invariant
            0 <= i <= notes@.len(),
            pitches@.len() == stages@.len(),
            pitches@.len() == closest_stages_of(*b, *r, notes@, i as int).len(),
            forall|j: int| 0 <= j < pitches@.len() ==> pitches@[j] == closest_stages_of(*b, *r, notes@, i as int)[j].0,
            forall|j: int| 0 <= j < pitches@.len() ==> (#[trigger] stages@[j])@ == closest_stages_of(*b, *r, notes@, i as int)[j].1,
        decreases notes@.len() - i,
    {
        let n = &notes[i];
        let ghost prev = closest_stages_of(*b, *r, notes@, i as int);
        let ghost next = closest_stages_of(*b, *r, notes@, i + 1);
        let ghost old_pitches = pitches@;
        let ghost old_stages = stages@;
        let muted = n.track < r.track_muted.len() && r.track_muted[n.track];
        if !muted && n.channel != DRUM_CHANNEL {
            let s = shifted_note(n.midi_note, r.octave_offset, r.track_octave, n.track);
            match b.note_to_all_keys.get(&s) {
                Some(kids) => {
                    let copy = kids.clone();
                    assert(copy@ =~= kids@);
                    pitches.push(s);
                    stages.push(copy);
                    assert(next == prev.push((s, kids@)));
                    assert forall|j: int| 0 <= j < pitches@.len() implies (#[trigger] stages@[j])@ == next[j].1 by {
                        if j < old_pitches.len() {
                            assert(stages@[j] == old_stages[j]);
                        }
                    }
                },
                None => {
                    assert(next == prev);
                },
            }
        } else {
            assert(next == prev);
        }
        i = i + 1;
    }
    (pitches, stages)
}

/// The map from pitch to chosen key: each pitch of the solved sequence
/// takes the key chosen for it, a later choice replacing an earlier one.
pub open spec fn chosen_map(pitches: Seq<u8>, chosen: Seq<KeyId>, n: int) -> Map<u8, KeyId>
    decreases n,
{
    if n <= 0 {
        Map::empty()
    } else {
        chosen_map(pitches, chosen, n - 1).insert(pitches[n - 1], chosen[n - 1])
    }
}

pub fn closest_key_map(pitches: &[u8], chosen: &[KeyId]) -> (m: HashMap<u8, KeyId>)
    ensures
        m@ == chosen_map(pitches@, chosen@, if pitches@.len() < chosen@.len() { pitches@.len() as int } else { chosen@.len() as int }),
{
    broadcast use vstd::std_specs::hash::group_hash_axioms;

    let count = if pitches.len() < chosen.len() { pitches.len() } else { chosen.len() };
    let mut m: HashMap<u8, KeyId> = HashMap::new();
    assert(m@ =~= Map::<u8, KeyId>::empty());
    let mut i: usize = 0;
    while i < count
        invariant
            0 <= i <= count,
            count <= pitches@.len(),
            count <= chosen@.len(),
            m@ == chosen_map(pitches@, chosen@, i as int),
        decreases count - i,
    {
        m.insert(pitches[i], chosen[i]);
        i = i + 1;
    }
    m
}

} // verus!

verus! {

use crate::controls::waveform_for_label;
use crate::controls::waveform_key_label;
use crate::key::Cluster;

/// The drum map sends note `n` to key `id`.
pub open spec fn maps_to(drums: Map<u8, KeyId>, id: KeyId, n: u8) -> bool {
    drums.contains_key(n) && drums[n] == id
}

/// The lowest note the drum map sends to key `id`, if any.
pub open spec fn lowest_drum_note(drums: Map<u8, KeyId>, id: KeyId) -> Option<u8> {
    if exists|n: u8| maps_to(drums, id, n) {
        Some(choose|n: u8| maps_to(drums, id, n) && forall|m: u8| m < n ==> !maps_to(drums, id, m))
    } else {
        None
    }
}

/// The note and channel a board key sounds: a melodic key's note on the
/// live channel (decided by the first key with this id), or else a drum
/// pad's note on the percussion channel (the lowest note mapped to the pad).
pub open spec fn spec_key_sound(keys: Seq<Key>, drums: Map<u8, KeyId>, id: KeyId, live_channel: u8) -> Option<(u8, u8)> {
    let i = key_index(keys, id, 0);
    if i < keys.len() && keys[i].midi_note is Some {
        Some((keys[i].midi_note->0, live_channel))
    } else {
        match lowest_drum_note(drums, id) {
            Some(n) => Some((n, DRUM_CHANNEL)),
            None => None,
        }
    }
}

pub fn key_sound(keys: &[Key], drum_note_to_key: &HashMap<u8, KeyId>, id: KeyId, live_channel: u8) -> (r: Option<(u8, u8)>)
    ensures
        r == spec_key_sound(keys@, drum_note_to_key@, id, live_channel),
{
    broadcast use vstd::std_specs::hash::group_hash_axioms;

    let i = find_key(keys, id);
    if i < keys.len() {
        match keys[i].midi_note {
            Some(n) => return Some((n, live_channel)),
            None => {},
        }
    }
    let mut n: u16 = 0;
    while n < 256
        invariant
            0 <= n <= 256,
            i == key_index(keys@, id, 0),
            !(i < keys@.len() && keys@[i as int].midi_note is Some),
            forall|m: u8| m < n ==> !maps_to(drum_note_to_key@, id, m),
        decreases 256 - n,
    {
        let note = n as u8;
        match drum_note_to_key.get(&note) {
            Some(k) => {
                if *k == id {
                    proof {
                        assert(maps_to(drum_note_to_key@, id, note));
                        assert(maps_to(drum_note_to_key@, id, note) && forall|m: u8| m < note ==> !maps_to(drum_note_to_key@, id, m));
                        let c = choose|c: u8| maps_to(drum_note_to_key@, id, c) && forall|m: u8| m < c ==> !maps_to(drum_note_to_key@, id, m);
                        assert(maps_to(drum_note_to_key@, id, c) && forall|m: u8| m < c ==> !maps_to(drum_note_to_key@, id, m));
                        if c < note {
                            assert(!maps_to(drum_note_to_key@, id, c));
                        } else if note < c {
                            assert(!maps_to(drum_note_to_key@, id, note));
                        }
                        assert(lowest_drum_note(drum_note_to_key@, id) == Some(note));
                    }
                    return Some((note, DRUM_CHANNEL));
                }
            },
            None => {},
        }
        n = n + 1;
    }
    proof {
        assert forall|m: u8| !maps_to(drum_note_to_key@, id, m) by {
            assert(m < 256);
        }
    }
    None
}

/// What pressing a board key does.
#[derive(Debug, Clone, Copy, PartialEq, Eq, Structural)]
pub enum KeyPress {
    /// A waveform-select key toggles its layer.
    ToggleWaveform,
    /// Sound this note on this channel.
    Sound(u8, u8),
    /// The key makes no sound.
    Silent,
}

/// Index of the first navigation key with this id, from `i` on.
pub open spec fn nav_key_index(keys: Seq<Key>, id: KeyId, i: int) -> int
    decreases keys.len() - i,
{
    if i < 0 || i >= keys.len() {
        keys.len() as int
    } else if keys[i].id == id && keys[i].cluster == Cluster::Nav {
        i
    } else {
        nav_key_index(keys, id, i + 1)
    }
}

/// A live key press: a waveform-select key toggles its layer; any other key
/// sounds its note, shifted by the live octave unless it is a drum pad.
pub open spec fn spec_key_press(keys: Seq<Key>, drums: Map<u8, KeyId>, id: KeyId, live_channel: u8, live_octave: i8) -> KeyPress {
    let nav = nav_key_index(keys, id, 0);
    if nav < keys.len() && waveform_label_text(keys[nav].label@) {
        KeyPress::ToggleWaveform
    } else {
        match spec_key_sound(keys, drums, id, live_channel) {
            Some((note, channel)) => KeyPress::Sound(
                if channel == DRUM_CHANNEL { note } else { clamped_shift(note, live_octave as int) },
                channel,
            ),
            None => KeyPress::Silent,
        }
    }
}

/// The label names a waveform layer.
pub open spec fn waveform_label_text(label: Seq<char>) -> bool {
    exists|w: crate::synth::Waveform| waveform_key_label(w) == Some(label)
}

pub fn board_key_press(keys: &[Key], drum_note_to_key: &HashMap<u8, KeyId>, id: KeyId, live_channel: u8, live_octave: i8) -> (r: KeyPress)
    ensures
        r == spec_key_press(keys@, drum_note_to_key@, id, live_channel, live_octave),
{
    let mut i: usize = 0;
    while i < keys.len()
        invariant
            0 <= i <= keys@.len(),
            nav_key_index(keys@, id, 0) == nav_key_index(keys@, id, i as int),
        ensures
            i == nav_key_index(keys@, id, 0),
        decreases keys@.len() - i,
    {
        if keys[i].id == id && keys[i].cluster == Cluster::Nav {
            break;
        }
        i = i + 1;
    }
    if i < keys.len() {
        match waveform_for_label(keys[i].label) {
            Some(w) => {
                assert(waveform_key_label(w) == Some(keys@[i as int].label@));
                return KeyPress::ToggleWaveform;
            },
            None => {},
        }
    }
    match key_sound(keys, drum_note_to_key, id, live_channel) {
        Some((note, channel)) => {
            let shifted = if channel == DRUM_CHANNEL {
                note
            } else {
                let s: i32 = note as i32 + live_octave as i32;
                if s < 0 {
                    0
                } else if s > 127 {
                    127
                } else {
                    s as u8
                }
            };
            KeyPress::Sound(shifted, channel)
        },
        None => KeyPress::Silent,
    }
}

} // verus!

verus! {

/// The highlight value of a key lit by a note played live on a MIDI input.
pub const LIVE_TRACK: usize = usize::MAX;

/// A note held on a MIDI input and the key it lit.
#[derive(Debug, Clone, Copy, PartialEq, Eq, Structural)]
pub struct HeldInput {
    pub channel: u8,
    pub note: u8,
    pub key: KeyId,
}

/// Notes held on a MIDI input and the keys they light.
pub struct LiveInput {
    /// One entry per held (channel, note).
    pub held: Vec<HeldInput>,
    /// Lit keys by id (`LIVE_TRACK`, or `WARNING_TRACK` for a stand-in).
    pub lit: HashMap<u32, usize>,
}

/// Index of the entry for (`channel`, `note`), from `i` on.
pub open spec fn held_index(held: Seq<HeldInput>, channel: u8, note: u8, i: int) -> int
    decreases held.len() - i,
{
    if i < 0 || i >= held.len() {
        held.len() as int
    } else if held[i].channel == channel && held[i].note == note {
        i
    } else {
        held_index(held, channel, note, i + 1)
    }
}

proof fn lemma_held_index(held: Seq<HeldInput>, channel: u8, note: u8, i: int)
    requires
        0 <= i <= held.len(),
    ensures
        i <= held_index(held, channel, note, i) <= held.len(),
        held_index(held, channel, note, i) < held.len() ==> held[held_index(held, channel, note, i)].channel == channel
            && held[held_index(held, channel, note, i)].note == note,
    decreases held.len() - i,
{
    if i < held.len() && !(held[i].channel == channel && held[i].note == note) {
        lemma_held_index(held, channel, note, i + 1);
    }
}

/// Some held note still lights `key`.
pub open spec fn key_in_use(held: Seq<HeldInput>, key: KeyId) -> bool {
    exists|j: int| 0 <= j < held.len() && held[j].key == key
}

/// What a note-on from the input does: the entry of its (channel, note)
/// moves to the chosen key, the key it lit before goes dark unless another
/// held note still lights it, and the chosen key lights.
pub open spec fn input_note_on(held: Seq<HeldInput>, lit: Map<u32, usize>, channel: u8, note: u8, key: KeyId, warning: bool) -> (Seq<HeldInput>, Map<u32, usize>) {
    let idx = held_index(held, channel, note, 0);
    let entry = HeldInput { channel, note, key };
    let new_held = if idx < held.len() { held.update(idx, entry) } else { held.push(entry) };
    let lit1 = if idx < held.len() && held[idx].key != key && !key_in_use(new_held, held[idx].key) {
        lit.remove(held[idx].key.0)
    } else {
        lit
    };
    (new_held, lit1.insert(key.0, if warning { WARNING_TRACK } else { LIVE_TRACK }))
}

/// What a note-off does: its entry goes, and its key goes dark unless
/// another held note still lights it.
pub open spec fn input_note_off(held: Seq<HeldInput>, lit: Map<u32, usize>, channel: u8, note: u8) -> (Seq<HeldInput>, Map<u32, usize>) {
    let idx = held_index(held, channel, note, 0);
    if idx < held.len() {
        let new_held = held.remove(idx);
        (new_held, if key_in_use(new_held, held[idx].key) { lit } else { lit.remove(held[idx].key.0) })
    } else {
        (held, lit)
    }
}

/// The entry is on the channel being released (every channel for none).
pub open spec fn releases(channel: Option<u8>, e: HeldInput) -> bool {
    match channel {
        Some(c) => e.channel == c,
        None => true,
    }
}

pub open spec fn released_of(held: Seq<HeldInput>, channel: Option<u8>) -> Seq<HeldInput> {
    held.filter(|e: HeldInput| releases(channel, e))
}

pub open spec fn kept_of(held: Seq<HeldInput>, channel: Option<u8>) -> Seq<HeldInput> {
    held.filter(|e: HeldInput| !releases(channel, e))
}

/// The keys still lit after releasing `released` while `kept` stay held.
pub open spec fn lit_after_release(lit: Map<u32, usize>, released: Seq<HeldInput>, kept: Seq<HeldInput>) -> Map<u32, usize> {
    Map::new(
        |k: u32| lit.contains_key(k) && !(key_in_use(released, KeyId(k)) && !key_in_use(kept, KeyId(k))),
        |k: u32| lit[k],
    )
}

impl LiveInput {
    pub fn new() -> (r: Self)
        ensures
            r.held@.len() == 0,
            r.lit@ == Map::<u32, usize>::empty(),
    {
        LiveInput { held: Vec::new(), lit: HashMap::new() }
    }

    fn find_held(&self, channel: u8, note: u8) -> (i: usize)
        ensures
            i == held_index(self.held@, channel, note, 0),
    {
        proof {
            lemma_held_index(self.held@, channel, note, 0);
        }
        let mut i: usize = 0;
        while i < self.held.len()
            invariant
                0 <= i <= self.held@.len(),
                held_index(self.held@, channel, note, 0) == held_index(self.held@, channel, note, i as int),
            ensures
                i == held_index(self.held@, channel, note, 0),
            decreases self.held@.len() - i,
        {
            if self.held[i].channel == channel && self.held[i].note == note {
                break;
            }
            i = i + 1;
        }
        i
    }

    fn in_use(&self, key: KeyId) -> (r: bool)
        ensures
            r == key_in_use(self.held@, key),
    {
        let mut i: usize = 0;
        while i < self.held.len()
            invariant
                0 <= i <= self.held@.len(),
                forall|j: int| 0 <= j < i ==> self.held@[j].key != key,
            decreases self.held@.len() - i,
        {
            if self.held[i].key == key {
                return true;
            }
            i = i + 1;
        }
        false
    }

    /// A note-on arrives from the input: the key it lights (if any) is
    /// chosen as for any live note, nearest to what the input already lit.
    pub fn note_on(&mut self, b: &BoardMaps, mode: KeyPickMode, note: u8, channel: u8)
        requires
            maps_ok(*b),
        ensures
            match live_note_key(*b, mode, old(self).lit@, note, channel) {
                Some((key, warning)) => (final(self).held@, final(self).lit@) == input_note_on(
                    old(self).held@,
                    old(self).lit@,
                    channel,
                    note,
                    key,
                    warning,
                ),
                None => final(self).held@ == old(self).held@ && final(self).lit@ == old(self).lit@,
            },
    {
        broadcast use vstd::std_specs::hash::group_hash_axioms;

        let choice = live_midi_key_for_note(b, mode, &self.lit, note, channel);
        match choice {
            Some((key, warning)) => {
                let idx = self.find_held(channel, note);
                let entry = HeldInput { channel, note, key };
                if idx < self.held.len() {
                    let old_key = self.held[idx].key;
                    self.held.set(idx, entry);
                    if old_key != key && !self.in_use(old_key) {
                        self.lit.remove(&old_key.0);
                    }
                } else {
                    self.held.push(entry);
                }
                self.lit.insert(key.0, if warning { WARNING_TRACK } else { LIVE_TRACK });
            },
            None => {},
        }
    }

    /// A note-off arrives from the input.
    pub fn note_off(&mut self, note: u8, channel: u8)
        ensures
            (final(self).held@, final(self).lit@) == input_note_off(old(self).held@, old(self).lit@, channel, note),
    {
        broadcast use vstd::std_specs::hash::group_hash_axioms;

        let idx = self.find_held(channel, note);
        if idx < self.held.len() {
            let old_key = self.held[idx].key;
            self.held.remove(idx);
            if !self.in_use(old_key) {
                self.lit.remove(&old_key.0);
            }
        }
    }

    /// Releases the held notes of one channel (all of them for none); returns
    /// the (channel, note) pairs to silence, in the order they were held.
    pub fn release(&mut self, channel: Option<u8>) -> (r: Vec<(u8, u8)>)
        ensures
            r@ == released_of(old(self).held@, channel).map_values(|e: HeldInput| (e.channel, e.note)),
            final(self).held@ == kept_of(old(self).held@, channel),
            final(self).lit@ == lit_after_release(old(self).lit@, released_of(old(self).held@, channel), kept_of(old(self).held@, channel)),
    {
        broadcast use vstd::std_specs::hash::group_hash_axioms;

        let ghost h = self.held@;
        let mut released: Vec<HeldInput> = Vec::new();
        let mut kept: Vec<HeldInput> = Vec::new();
        let mut i: usize = 0;
        while i < self.held.len()
            invariant
                0 <= i <= h.len(),
                self.held@ == h,
                released@ == released_of(h.take(i as int), channel),
                kept@ == kept_of(h.take(i as int), channel),
            decreases h.len() - i,
        {
            let e = self.held[i];
            proof {
                assert(h.take(i + 1).drop_last() =~= h.take(i as int));
                reveal(Seq::filter);
            }
            let hit = match channel {
                Some(c) => e.channel == c,
                None => true,
            };
            if hit {
                released.push(e);
            } else {
                kept.push(e);
            }
            i = i + 1;
        }
        assert(h.take(h.len() as int) =~= h);
        self.held = kept;
        let ghost lit0 = self.lit@;
        let mut j: usize = 0;
        while j < released.len()
            invariant
                0 <= j <= released@.len(),
                released@ == released_of(h, channel),
                self.held@ == kept_of(h, channel),
                self.lit@ == lit_after_release(lit0, released@.take(j as int), self.held@),
            decreases released@.len() - j,
        {
            let key = released[j].key;
            if !self.in_use(key) {
                self.lit.remove(&key.0);
            }
            proof {
                let pre = released@.take(j as int);
                let post = released@.take(j + 1);
                assert forall|k: u32| key_in_use(post, KeyId(k)) <==> (key_in_use(pre, KeyId(k)) || key == KeyId(k)) by {
                    if key_in_use(post, KeyId(k)) {
                        let w = choose|w: int| 0 <= w < post.len() && post[w].key == KeyId(k);
                        if w < j {
                            assert(pre[w] == post[w]);
                        }
                    }
                    if key_in_use(pre, KeyId(k)) {
                        let w = choose|w: int| 0 <= w < pre.len() && pre[w].key == KeyId(k);
                        assert(post[w] == pre[w]);
                    }
                    if key == KeyId(k) {
                        assert(post[j as int].key == key);
                    }
                }
                assert(self.lit@ =~= lit_after_release(lit0, post, self.held@));
            }
            j = j + 1;
        }
        assert(released@.take(released@.len() as int) =~= released@);
        let mut out: Vec<(u8, u8)> = Vec::new();
        let mut k: usize = 0;
        while k < released.len()
            invariant
                0 <= k <= released@.len(),
                out@ == released@.take(k as int).map_values(|e: HeldInput| (e.channel, e.note)),
            decreases released@.len() - k,
        {
            out.push((released[k].channel, released[k].note));
            proof {
                assert(released@.take(k + 1).map_values(|e: HeldInput| (e.channel, e.note)) =~= released@.take(k as int).map_values(|e: HeldInput| (e.channel, e.note)).push((released@[k as int].channel, released@[k as int].note)));
            }
            k = k + 1;
        }
        out
    }
}

} // verus!

verus! {

use crate::controls::PlayState;
use crate::playback::PlayEvent as EngineEvent;

/// The key a played note lights: its drum pad on the percussion channel;
/// otherwise, in Closest mode, the precomputed key of its shifted pitch, or
/// else the fixed choice among that pitch's keys.
pub open spec fn played_key(b: BoardMaps, r: NoteRouting, note: u8, track: usize, channel: u8) -> Option<KeyId> {
    first_pass_key(b, r, Note { start_tick: 0, end_tick: 0, midi_note: note, track, channel, velocity: 0 })
}

/// What the display shows of playback: the lit keys (by id, with the track
/// that lit them), the key each sounding (channel, note) lit, the playhead
/// and the transport state.
pub struct PlaybackDisplay {
    pub highlighted: HashMap<u32, usize>,
    pub active: Vec<HeldInput>,
    pub position_tick: u64,
    pub play_state: PlayState,
}

/// What a report from the engine does to the display, given whether all of
/// the song's notes are shown (then played notes light nothing more); the
/// result tells whether playback must start again (the song looped).
pub open spec fn display_effect(
    b: BoardMaps,
    r: NoteRouting,
    show_all_notes: bool,
    looper_enabled: bool,
    total_ticks: Option<u64>,
    ev: EngineEvent,
    old_hl: Map<u32, usize>,
    old_active: Seq<HeldInput>,
    old_pos: u64,
    old_state: PlayState,
    hl: Map<u32, usize>,
    active: Seq<HeldInput>,
    pos: u64,
    state: PlayState,
    play_again: bool,
) -> bool {
    match ev {
        EngineEvent::NoteOn(note, track, channel) => {
            &&& pos == old_pos && state == old_state && !play_again
            &&& if show_all_notes {
                hl == old_hl && active == old_active
            } else {
                match played_key(b, r, note, track, channel) {
                    Some(k) => {
                        &&& hl == old_hl.insert(k.0, track)
                        &&& if channel == DRUM_CHANNEL {
                            active == old_active
                        } else {
                            let idx = held_index(old_active, channel, note, 0);
                            let entry = HeldInput { channel, note, key: k };
                            active == if idx < old_active.len() { old_active.update(idx, entry) } else { old_active.push(entry) }
                        }
                    },
                    None => hl == old_hl && active == old_active,
                }
            }
        },
        EngineEvent::NoteOff(note, channel) => {
            &&& pos == old_pos && state == old_state && !play_again
            &&& if show_all_notes {
                hl == old_hl && active == old_active
            } else if channel == DRUM_CHANNEL {
                active == old_active && hl == if b.drum_note_to_key@.contains_key(note) {
                    old_hl.remove(b.drum_note_to_key@[note].0)
                } else {
                    old_hl
                }
            } else {
                let idx = held_index(old_active, channel, note, 0);
                if idx < old_active.len() {
                    active == old_active.remove(idx) && hl == old_hl.remove(old_active[idx].key.0)
                } else {
                    active == old_active && hl == old_hl
                }
            }
        },
        EngineEvent::Position(t) => {
            &&& pos == t && state == old_state && !play_again
            &&& hl == old_hl && active == old_active
        },
        EngineEvent::Done => {
            let again = looper_enabled && (total_ticks matches Some(t) && t > 0);
            &&& pos == 0
            &&& hl == Map::<u32, usize>::empty()
            &&& active.len() == 0
            &&& play_again == again
            &&& state == if again { PlayState::Playing } else { PlayState::Stopped }
        },
    }
}

impl PlaybackDisplay {
    pub fn new() -> (r: Self)
        ensures
            r.highlighted@ == Map::<u32, usize>::empty(),
            r.active@.len() == 0,
            r.position_tick == 0,
            r.play_state == PlayState::Stopped,
    {
        PlaybackDisplay { highlighted: HashMap::new(), active: Vec::new(), position_tick: 0, play_state: PlayState::Stopped }
    }

    fn find_active(&self, channel: u8, note: u8) -> (i: usize)
        ensures
            i == held_index(self.active@, channel, note, 0),
    {
        proof {
            lemma_held_index(self.active@, channel, note, 0);
        }
        let mut i: usize = 0;
        while i < self.active.len()
            invariant
                0 <= i <= self.active@.len(),
                held_index(self.active@, channel, note, 0) == held_index(self.active@, channel, note, i as int),
            ensures
                i == held_index(self.active@, channel, note, 0),
            decreases self.active@.len() - i,
        {
            if self.active[i].channel == channel && self.active[i].note == note {
                break;
            }
            i = i + 1;
        }
        i
    }

    /// Applies one report from the engine; true when playback must start
    /// again because the song ended with the looper on.
    pub fn apply(
        &mut self,
        b: &BoardMaps,
        r: &NoteRouting,
        show_all_notes: bool,
        looper_enabled: bool,
        total_ticks: Option<u64>,
        ev: EngineEvent,
    ) -> (play_again: bool)
        ensures
            display_effect(
                *b,
                *r,
                show_all_notes,
                looper_enabled,
                total_ticks,
                ev,
                old(self).highlighted@,
                old(self).active@,
                old(self).position_tick,
                old(self).play_state,
                final(self).highlighted@,
                final(self).active@,
                final(self).position_tick,
                final(self).play_state,
                play_again,
            ),
            show_all_notes && (ev is NoteOn || ev is NoteOff) ==> {
                &&& final(self).highlighted@ == old(self).highlighted@
                &&& final(self).active@ == old(self).active@
            },
    {
        broadcast use vstd::std_specs::hash::group_hash_axioms;

        match ev {
            EngineEvent::NoteOn(note, track, channel) => {
                if !show_all_notes {
                    let probe = Note { start_tick: 0, end_tick: 0, midi_note: note, track, channel, velocity: 0 };
                    match first_key(b, r, &probe) {
                        Some(k) => {
                            self.highlighted.insert(k.0, track);
                            if channel != DRUM_CHANNEL {
                                let idx = self.find_active(channel, note);
                                let entry = HeldInput { channel, note, key: k };
                                if idx < self.active.len() {
                                    self.active.set(idx, entry);
                                } else {
                                    self.active.push(entry);
                                }
                            }
                        },
                        None => {},
                    }
                }
                false
            },
            EngineEvent::NoteOff(note, channel) => {
                if !show_all_notes {
                    if channel == DRUM_CHANNEL {
                        match b.drum_note_to_key.get(&note) {
                            Some(k) => {
                                self.highlighted.remove(&k.0);
                            },
                            None => {},
                        }
                    } else {
                        let idx = self.find_active(channel, note);
                        if idx < self.active.len() {
                            let k = self.active[idx].key;
                            self.active.remove(idx);
                            self.highlighted.remove(&k.0);
                        }
                    }
                }
                false
            },
            EngineEvent::Position(t) => {
                self.position_tick = t;
                false
            },
            EngineEvent::Done => {
                self.position_tick = 0;
                self.highlighted.clear();
                self.active.clear();
                let again = looper_enabled && match total_ticks {
                    Some(t) => t > 0,
                    None => false,
                };
                self.play_state = if again { PlayState::Playing } else { PlayState::Stopped };
                again
            },
        }
    }
}

/// With all of the song's notes shown, the engine's note reports leave the
/// board as it is: no key is lit or unlit by a note-on or a note-off, the
/// held notes stay the same, and the playhead and the play state are kept.
pub proof fn lemma_all_notes_view_ignores_note_reports(
    b: BoardMaps,
    r: NoteRouting,
    looper_enabled: bool,
    total_ticks: Option<u64>,
    ev: EngineEvent,
    old_hl: Map<u32, usize>,
    old_active: Seq<HeldInput>,
    old_pos: u64,
    old_state: PlayState,
    hl: Map<u32, usize>,
    active: Seq<HeldInput>,
    pos: u64,
    state: PlayState,
    play_again: bool,
)
    requires
        ev is NoteOn || ev is NoteOff,
        display_effect(b, r, true, looper_enabled, total_ticks, ev, old_hl, old_active, old_pos, old_state, hl, active, pos, state, play_again),
    ensures
        hl == old_hl,
        active == old_active,
        pos == old_pos,
        state == old_state,
        !play_again,
{
}

/// The range the engine repeats: the staff selection (at least one tick
/// wide) when there is one, the whole song otherwise; none with the looper off.
pub fn loop_range_for(looper_enabled: bool, selection: Option<(u64, u64)>, total_ticks: Option<u64>) -> (r: Option<(u64, u64)>)
    requires
        selection matches Some((s, _)) ==> s < u64::MAX,
    ensures
        r == if !looper_enabled {
            None::<(u64, u64)>
        } else {
            match selection {
                Some((s, e)) => Some((s, if e > s + 1 { e } else { (s + 1) as u64 })),
                None => match total_ticks {
                    Some(t) => Some((0u64, t)),
                    None => None,
                },
            }
        },
{
    if !looper_enabled {
        return None;
    }
    match selection {
        Some((s, e)) => Some((s, if e > s + 1 { e } else { s + 1 })),
        None => match total_ticks {
            Some(t) => Some((0, t)),
            None => None,
        },
    }
}

} // verus!

verus! {

/// The stand-ins for notes off the keyboard never take over a key that is
/// already lit: every key lit before the second pass keeps its track.
pub proof fn lemma_fallback_keeps_lit_keys(
    b: BoardMaps,
    r: NoteRouting,
    window: Option<(u64, u64)>,
    notes: Seq<Note>,
    start: (Map<u32, usize>, Seq<(KeyId, Seq<u64>)>),
    n: int,
)
    ensures
        forall|k: u32| #[trigger] start.0.contains_key(k) ==> second_pass(b, r, window, notes, start, n).0.contains_key(k)
            && second_pass(b, r, window, notes, start, n).0[k] == start.0[k],
    decreases n,
{
    if n > 0 {
        lemma_fallback_keeps_lit_keys(b, r, window, notes, start, n - 1);
    }
}

} // verus!

verus! {

/// The notes sounding from board keys held down: for each key (by id), the
/// note and channel its press turned on.
pub struct LiveKeys {
    pub sounding: HashMap<u32, (u8, u8)>,
}

impl LiveKeys {
    pub fn new() -> (r: Self)
        ensures
            r.sounding@ == Map::<u32, (u8, u8)>::empty(),
    {
        LiveKeys { sounding: HashMap::new() }
    }

    /// A press of key `id` that sounds a note remembers it; the note to
    /// sound, if any, comes back.
    pub fn press(&mut self, id: KeyId, press: KeyPress) -> (r: Option<(u8, u8)>)
        ensures
            r == match press {
                KeyPress::Sound(n, c) => Some((n, c)),
                _ => None::<(u8, u8)>,
            },
            final(self).sounding@ == match press {
                KeyPress::Sound(n, c) => old(self).sounding@.insert(id.0, (n, c)),
                _ => old(self).sounding@,
            },
    {
        match press {
            KeyPress::Sound(n, c) => {
                self.sounding.insert(id.0, (n, c));
                Some((n, c))
            },
            _ => None,
        }
    }

    /// A release of key `id` turns off the note its press turned on, even if
    /// the live octave has changed since; none when it sounded nothing.
    pub fn release(&mut self, id: KeyId) -> (r: Option<(u8, u8)>)
        ensures
            r == if old(self).sounding@.contains_key(id.0) {
                Some(old(self).sounding@[id.0])
            } else {
                None::<(u8, u8)>
            },
            final(self).sounding@ == old(self).sounding@.remove(id.0),
    {
        broadcast use vstd::std_specs::hash::group_hash_axioms;

        let r = match self.sounding.get(&id.0) {
            Some(v) => Some(*v),
            None => None,
        };
        self.sounding.remove(&id.0);
        r
    }
}

/// Releasing a key turns off exactly the note its press turned on, whatever
/// other keys were pressed or released in between.
pub proof fn lemma_release_matches_press(m: Map<u32, (u8, u8)>, id: u32, note: u8, channel: u8, other: u32, between: Option<(u8, u8)>)
    requires
        other != id,
    ensures
        ({
            let pressed = m.insert(id, (note, channel));
            let moved = match between {
                Some(v) => pressed.insert(other, v),
                None => pressed.remove(other),
            };
            moved.contains_key(id) && moved[id] == (note, channel)
        }),
{
}

} // verus!

verus! {

/// The keys lit by the input are exactly the keys of the notes it holds.
pub open spec fn lit_matches_held(held: Seq<HeldInput>, lit: Map<u32, usize>) -> bool {
    forall|k: u32| #[trigger] lit.contains_key(k) <==> key_in_use(held, KeyId(k))
}

proof fn lemma_note_on_keeps_match(held: Seq<HeldInput>, lit: Map<u32, usize>, channel: u8, note: u8, key: KeyId, warning: bool)
    requires
        lit_matches_held(held, lit),
    ensures
        lit_matches_held(input_note_on(held, lit, channel, note, key, warning).0, input_note_on(held, lit, channel, note, key, warning).1),
{
    lemma_held_index(held, channel, note, 0);
    let idx = held_index(held, channel, note, 0);
    let entry = HeldInput { channel, note, key };
    let (nh, nl) = input_note_on(held, lit, channel, note, key, warning);
    assert forall|k: u32| #[trigger] nl.contains_key(k) <==> key_in_use(nh, KeyId(k)) by {
        if k == key.0 {
            let w = if idx < held.len() { idx } else { held.len() as int };
            assert(nh[w] == entry);
        } else if idx < held.len() {
            assert(nh == held.update(idx, entry));
            if key_in_use(held, KeyId(k)) && KeyId(k) != held[idx].key {
                let w = choose|w: int| 0 <= w < held.len() && held[w].key == KeyId(k);
                assert(w != idx);
                assert(nh[w] == held[w]);
            }
            if key_in_use(nh, KeyId(k)) {
                let w = choose|w: int| 0 <= w < nh.len() && nh[w].key == KeyId(k);
                assert(w != idx);
                assert(held[w] == nh[w]);
            }
            if KeyId(k) == held[idx].key && held[idx].key != key && key_in_use(nh, KeyId(k)) {
                assert(lit.contains_key(k));
            }
        } else {
            assert(nh == held.push(entry));
            if key_in_use(held, KeyId(k)) {
                let w = choose|w: int| 0 <= w < held.len() && held[w].key == KeyId(k);
                assert(nh[w] == held[w]);
            }
            if key_in_use(nh, KeyId(k)) {
                let w = choose|w: int| 0 <= w < nh.len() && nh[w].key == KeyId(k);
                assert(w < held.len());
                assert(held[w] == nh[w]);
            }
        }
    }
}

proof fn lemma_note_off_keeps_match(held: Seq<HeldInput>, lit: Map<u32, usize>, channel: u8, note: u8)
    requires
        lit_matches_held(held, lit),
    ensures
        lit_matches_held(input_note_off(held, lit, channel, note).0, input_note_off(held, lit, channel, note).1),
{
    lemma_held_index(held, channel, note, 0);
    let idx = held_index(held, channel, note, 0);
    if idx < held.len() {
        let nh = held.remove(idx);
        let nl = input_note_off(held, lit, channel, note).1;
        assert forall|k: u32| #[trigger] nl.contains_key(k) <==> key_in_use(nh, KeyId(k)) by {
            if key_in_use(nh, KeyId(k)) {
                let w = choose|w: int| 0 <= w < nh.len() && nh[w].key == KeyId(k);
                let v = if w < idx { w } else { w + 1 };
                assert(held[v] == nh[w]);
            }
            if KeyId(k) != held[idx].key && key_in_use(held, KeyId(k)) {
                let w = choose|w: int| 0 <= w < held.len() && held[w].key == KeyId(k);
                assert(w != idx);
                let v = if w < idx { w } else { w - 1 };
                assert(nh[v] == held[w]);
            }
        }
    }
}

proof fn lemma_release_keeps_match(held: Seq<HeldInput>, lit: Map<u32, usize>, channel: Option<u8>)
    requires
        lit_matches_held(held, lit),
    ensures
        lit_matches_held(
            kept_of(held, channel),
            lit_after_release(lit, released_of(held, channel), kept_of(held, channel)),
        ),
{
    let p = |e: HeldInput| releases(channel, e);
    let q = |e: HeldInput| !releases(channel, e);
    let rel = released_of(held, channel);
    let kept = kept_of(held, channel);
    held.filter_lemma(p);
    held.filter_lemma(q);
    let nl = lit_after_release(lit, rel, kept);
    assert forall|k: u32| #[trigger] nl.contains_key(k) <==> key_in_use(kept, KeyId(k)) by {
        if key_in_use(kept, KeyId(k)) {
            let w = choose|w: int| 0 <= w < kept.len() && kept[w].key == KeyId(k);
            assert(kept.contains(kept[w]));
            held.lemma_filter_contains_rev(q, kept[w]);
            let v = choose|v: int| 0 <= v < held.len() && held[v] == kept[w];
            assert(key_in_use(held, KeyId(k)));
        }
        if lit.contains_key(k) && !key_in_use(kept, KeyId(k)) {
            let v = choose|v: int| 0 <= v < held.len() && held[v].key == KeyId(k);
            if releases(channel, held[v]) {
                assert(rel.contains(held[v]));
                let w = choose|w: int| 0 <= w < rel.len() && rel[w] == held[v];
                assert(key_in_use(rel, KeyId(k)));
            } else {
                assert(kept.contains(held[v]));
                let w = choose|w: int| 0 <= w < kept.len() && kept[w] == held[v];
                assert(key_in_use(kept, KeyId(k)));
            }
        }
    }
}

/// The keys the input lights always follow the notes it holds: a key stays
/// lit while any held note lights it and goes dark once none does, through
/// note-ons, note-offs and releases.
pub proof fn lemma_lit_keys_follow_held_notes(
    held: Seq<HeldInput>,
    lit: Map<u32, usize>,
    channel: u8,
    note: u8,
    key: KeyId,
    warning: bool,
    released: Option<u8>,
)
    requires
        lit_matches_held(held, lit),
    ensures
        lit_matches_held(input_note_on(held, lit, channel, note, key, warning).0, input_note_on(held, lit, channel, note, key, warning).1),
        lit_matches_held(input_note_off(held, lit, channel, note).0, input_note_off(held, lit, channel, note).1),
        lit_matches_held(
            kept_of(held, released),
            lit_after_release(lit, released_of(held, released), kept_of(held, released)),
        ),
{
    lemma_note_on_keeps_match(held, lit, channel, note, key, warning);
    lemma_note_off_keeps_match(held, lit, channel, note);
    lemma_release_keeps_match(held, lit, released);
}

} // verus!
