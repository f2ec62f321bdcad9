//! The board's keys: where each sits, what it is labelled, which firmware
//! note it plays, and the maps from notes back to keys.
use vstd::prelude::*;
use std::collections::{HashMap, HashSet};
use crate::key::{Cluster, Key, KeyId, KeyView};
use crate::staff::{pitch_class_name, spec_is_sharp};
use crate::synth::KNOB_COUNT;
use crate::key_geometry::{
    alpha_boundaries, alpha_guide_at, alpha_key_rect, annotated_index, guide_inside,
    lemma_alpha_guide_inside_key,
};

verus! {

/// Horizontal anchors (in sixths of a unit) of the navigation block and the
/// numpad. Their spacing is one half-unit gap, matching the gap between the
/// alpha block and the navigation block.
pub const NAV_COL: u16 = 93;
pub const NUMPAD_COL: u16 = 114;

/// Column pitch and width of the encoder knobs (sixths of a unit): twelve
/// knobs two thirds of a unit apart, each half a unit wide.
pub const KNOB_COL_STEP: u16 = 4;
pub const KNOB_WIDTH: u16 = 3;

/// Number of keys on the board, and the index of the first numpad key.
pub const KEY_COUNT: usize = 112;
pub const NUMPAD_START: usize = 92;

/// GM percussion notes assigned to the numpad cluster, one per key, in the
/// row-major order in which its 4x5 grid is laid out.
pub const DRUM_PAD_NOTES: [u8; 20] = [
    36, 37, 38, 39, 40, 41, 42, 43, 44, 45, 46, 47, 48, 49, 50, 51, 52, 53, 54, 55,
];

pub struct Layout {
    pub keys: Vec<Key>,
    /// All key ids for each note, ordered top row first. A note appears on
    /// two rows where the rows' ranges overlap.
    pub note_to_all_keys: HashMap<u8, Vec<KeyId>>,
    /// Every firmware note present on the keyboard.
    pub keyboard_notes: HashSet<u8>,
    /// GM percussion note -> drum pad key.
    pub drum_note_to_key: HashMap<u8, KeyId>,
}

/// Sharp notes light the dark alpha caps; naturals the light ones.
pub open spec fn spec_note_cluster(midi: u8) -> Cluster {
    if spec_is_sharp(midi) {
        Cluster::Alpha
    } else {
        Cluster::AlphaLight
    }
}

pub fn note_cluster(midi: u8) -> (r: Cluster)
    ensures
        r == spec_note_cluster(midi),
{
    match midi % 12 {
        1 | 3 | 6 | 8 | 10 => Cluster::Alpha,
        _ => Cluster::AlphaLight,
    }
}

/// Pitch-class name of a note ("C", "C#", ..., "B").
pub fn note_name(midi: u8) -> (r: &'static str)
    ensures
        r@ == pitch_class_name((midi % 12) as int),
{
    let pc = midi % 12;
    if pc == 0 {
        "C"
    } else if pc == 1 {
        "C#"
    } else if pc == 2 {
        "D"
    } else if pc == 3 {
        "D#"
    } else if pc == 4 {
        "E"
    } else if pc == 5 {
        "F"
    } else if pc == 6 {
        "F#"
    } else if pc == 7 {
        "G"
    } else if pc == 8 {
        "G#"
    } else if pc == 9 {
        "A"
    } else if pc == 10 {
        "A#"
    } else {
        "B"
    }
}

/// An alpha key playing note `m`.
pub open spec fn alpha_key(id: int, m: int, col: int, row: int, w: int) -> KeyView {
    KeyView {
        id: id as u32,
        label: pitch_class_name(m % 12),
        sublabel: None,
        col,
        row,
        w,
        h: 6,
        cluster: spec_note_cluster(m as u8),
        is_knob: false,
        midi_note: Some(m as u8),
        knob_index: None,
    }
}

/// A one-unit key with a label and perhaps a sublabel.
pub open spec fn plain_key(id: int, label: Seq<char>, sublabel: Option<Seq<char>>, col: int, row: int, cluster: Cluster) -> KeyView {
    KeyView { id: id as u32, label, sublabel, col, row, w: 6, h: 6, cluster, is_knob: false, midi_note: None, knob_index: None }
}

pub open spec fn nav_key(id: int, c: int) -> KeyView {
    let col = NAV_COL + 6 * (c % 3);
    let row = if c < 3 { 6int } else { 12int };
    if c == 0 {
        plain_key(id, "Insert"@, Some("Triangle"@), col, row, Cluster::Nav)
    } else if c == 1 {
        plain_key(id, "Home"@, Some("Square"@), col, row, Cluster::Nav)
    } else if c == 2 {
        plain_key(id, "PgUp"@, Some("Saw"@), col, row, Cluster::Nav)
    } else if c == 3 {
        plain_key(id, "Delete"@, None, col, row, Cluster::Nav)
    } else if c == 4 {
        plain_key(id, "End"@, None, col, row, Cluster::Nav)
    } else {
        plain_key(id, "PgDn"@, None, col, row, Cluster::Nav)
    }
}

pub open spec fn arrow_key(id: int, c: int) -> KeyView {
    if c == 0 {
        plain_key(id, "↑"@, None, NAV_COL + 6, 24, Cluster::Arrow)
    } else if c == 1 {
        plain_key(id, "←"@, None, NAV_COL as int, 30, Cluster::Arrow)
    } else if c == 2 {
        plain_key(id, "↓"@, None, NAV_COL + 6, 30, Cluster::Arrow)
    } else {
        plain_key(id, "→"@, None, NAV_COL + 12, 30, Cluster::Arrow)
    }
}

pub open spec fn numpad_label(j: int) -> Seq<char> {
    if j == 0 { "Num"@ } else if j == 1 { "/"@ } else if j == 2 { "*"@ } else if j == 3 { "-"@ }
    else if j == 4 { "7"@ } else if j == 5 { "8"@ } else if j == 6 { "9"@ } else if j == 7 { "+"@ }
    else if j == 8 { "4"@ } else if j == 9 { "5"@ } else if j == 10 { "6"@ } else if j == 11 { "+"@ }
    else if j == 12 { "1"@ } else if j == 13 { "2"@ } else if j == 14 { "3"@ } else if j == 15 { "Shift"@ }
    else if j == 16 { "0"@ } else if j == 17 { "00"@ } else if j == 18 { "."@ } else { "PgUp"@ }
}

pub open spec fn numpad_sublabel(j: int) -> Option<Seq<char>> {
    if j == 0 { Some("Lock"@) } else if j == 4 { Some("Home"@) } else if j == 5 { Some("↑"@) }
    else if j == 6 { Some("Pg Up"@) } else if j == 8 { Some("←"@) } else if j == 10 { Some("→"@) }
    else if j == 12 { Some("End"@) } else if j == 13 { Some("↓"@) } else if j == 14 { Some("Pg Dn"@) }
    else if j == 16 { Some("Ins"@) } else if j == 18 { Some("Del"@) } else { None }
}

/// Key `i` of the board (ids count from 1 in this order): the twelve encoder
/// knobs, the five alpha rows top to bottom, the navigation block, the
/// arrows, and the numpad in row-major order.
///
/// Alpha rows play every other semitone: row 1 from 78 (fourteen keys, the
/// first and last one and a half units wide), row 2 from 71 (fifteen), row 3
/// from 66 (fourteen, the first one and a half wide), row 4 from 59
/// (fifteen); row 5 plays 54 on a wide key, 58 to 76 after a one-unit gap,
/// and 80 after another.
pub open spec fn layout_key(i: int) -> KeyView {
    let id = i + 1;
    if i < 12 {
        KeyView {
            id: id as u32,
            label: ""@,
            sublabel: None,
            col: KNOB_COL_STEP * i,
            row: 0,
            w: KNOB_WIDTH as int,
            h: 6,
            cluster: Cluster::Encoder,
            is_knob: true,
            midi_note: None,
            knob_index: Some(i as u8),
        }
    } else if i < 26 {
        let c = i - 12;
        alpha_key(id, 78 + 2 * c, if c == 0 { 0 } else { 6 * c + 3 }, 6, if c == 0 || c == 13 { 9 } else { 6 })
    } else if i < 41 {
        let c = i - 26;
        alpha_key(id, 71 + 2 * c, 6 * c, 12, 6)
    } else if i < 55 {
        let c = i - 41;
        alpha_key(id, 66 + 2 * c, if c == 0 { 0 } else { 6 * c + 3 }, 18, if c == 0 { 9 } else { 6 })
    } else if i < 70 {
        let c = i - 55;
        alpha_key(id, 59 + 2 * c, 6 * c, 24, 6)
    } else if i < 82 {
        let c = i - 70;
        if c == 0 {
            alpha_key(id, 54, 0, 30, 9)
        } else if c <= 10 {
            alpha_key(id, 56 + 2 * c, 9 + 6 * c, 30, 6)
        } else {
            alpha_key(id, 80, 81, 30, 6)
        }
    } else if i < 88 {
        nav_key(id, i - 82)
    } else if i < 92 {
        arrow_key(id, i - 88)
    } else {
        let j = i - 92;
        plain_key(id, numpad_label(j), numpad_sublabel(j), NUMPAD_COL + 6 * (j % 4), 6 * (j / 4), Cluster::Numpad)
    }
}

/// The first `n` keys are laid out as `layout_key` says.
pub open spec fn built_prefix(keys: Seq<Key>) -> bool {
    forall|j: int| 0 <= j < keys.len() ==> #[trigger] keys[j]@ == layout_key(j)
}

fn push_key(keys: &mut Vec<Key>, k: Key)
    requires
        built_prefix(old(keys)@),
        k@ == layout_key(old(keys)@.len() as int),
    ensures
        final(keys)@ == old(keys)@.push(k),
        built_prefix(final(keys)@),
{
    keys.push(k);
}

/// Ids of the keys among the first `i` that play note `n`, in board order.
pub open spec fn ids_with_note(n: u8, i: int) -> Seq<KeyId>
    decreases i,
{
    if i <= 0 {
        Seq::empty()
    } else if layout_key(i - 1).midi_note == Some(n) {
        ids_with_note(n, i - 1).push(KeyId(i as u32))
    } else {
        ids_with_note(n, i - 1)
    }
}

fn push_encoders(keys: &mut Vec<Key>)
    requires
        old(keys)@.len() == 0,
    ensures
        final(keys)@.len() == 12,
        built_prefix(final(keys)@),
{
    let mut i: u16 = 0;
    while (i as usize) < KNOB_COUNT
        invariant
            0 <= i <= 12,
            keys@.len() == i,
            built_prefix(keys@),
        decreases 12 - i,
    {
        let id = keys.len() as u32 + 1;
        push_key(keys, Key::new(id, "", i * KNOB_COL_STEP, 0, Cluster::Encoder).size(KNOB_WIDTH, 6).knob(i as u8));
        i = i + 1;
    }
}

/// Row 1: a wide key, twelve keys on half columns, another wide key.
fn push_row_1(keys: &mut Vec<Key>)
    requires
        old(keys)@.len() == 12,
        built_prefix(old(keys)@),
    ensures
        final(keys)@.len() == 26,
        built_prefix(final(keys)@),
{
    let m: u8 = 78;
    push_key(keys, Key::new(13, note_name(m), 0, 6, note_cluster(m)).size(9, 6).note(m));
    let mut c: u16 = 1;
    while c < 14
        invariant
            1 <= c <= 14,
            keys@.len() == 12 + c,
            built_prefix(keys@),
        decreases 14 - c,
    {
        let m = (78 + 2 * c) as u8;
        let id = keys.len() as u32 + 1;
        let key = Key::new(id, note_name(m), 6 * c + 3, 6, note_cluster(m));
        if c == 13 {
            push_key(keys, key.size(9, 6).note(m));
        } else {
            push_key(keys, key.note(m));
        }
        c = c + 1;
    }
}

/// Rows 2 and 4: fifteen one-unit keys.
fn push_full_row(keys: &mut Vec<Key>, first: u16, base_note: u16, row: u16)
    requires
        (first == 26 && base_note == 71 && row == 12) || (first == 55 && base_note == 59 && row == 24),
        old(keys)@.len() == first,
        built_prefix(old(keys)@),
    ensures
        final(keys)@.len() == first + 15,
        built_prefix(final(keys)@),
{
    let mut c: u16 = 0;
    while c < 15
        invariant
            (first == 26 && base_note == 71 && row == 12) || (first == 55 && base_note == 59 && row == 24),
            0 <= c <= 15,
            keys@.len() == first + c,
            built_prefix(keys@),
        decreases 15 - c,
    {
        let m = (base_note + 2 * c) as u8;
        let id = keys.len() as u32 + 1;
        push_key(keys, Key::new(id, note_name(m), 6 * c, row, note_cluster(m)).note(m));
        c = c + 1;
    }
}

/// Row 3: a wide key and thirteen keys on half columns.
fn push_row_3(keys: &mut Vec<Key>)
    requires
        old(keys)@.len() == 41,
        built_prefix(old(keys)@),
    ensures
        final(keys)@.len() == 55,
        built_prefix(final(keys)@),
{
    let m: u8 = 66;
    push_key(keys, Key::new(42, note_name(m), 0, 18, note_cluster(m)).size(9, 6).note(m));
    let mut c: u16 = 1;
    while c < 14
        invariant
            1 <= c <= 14,
            keys@.len() == 41 + c,
            built_prefix(keys@),
        decreases 14 - c,
    {
        let m = (66 + 2 * c) as u8;
        let id = keys.len() as u32 + 1;
        push_key(keys, Key::new(id, note_name(m), 6 * c + 3, 18, note_cluster(m)).note(m));
        c = c + 1;
    }
}

/// Row 5: a wide key, a gap, ten keys, a gap, one key.
fn push_row_5(keys: &mut Vec<Key>)
    requires
        old(keys)@.len() == 70,
        built_prefix(old(keys)@),
    ensures
        final(keys)@.len() == 82,
        built_prefix(final(keys)@),
{
    let m: u8 = 54;
    push_key(keys, Key::new(71, note_name(m), 0, 30, note_cluster(m)).size(9, 6).note(m));
    let mut c: u16 = 1;
    while c < 11
        invariant
            1 <= c <= 11,
            keys@.len() == 70 + c,
            built_prefix(keys@),
        decreases 11 - c,
    {
        let m = (56 + 2 * c) as u8;
        let id = keys.len() as u32 + 1;
        push_key(keys, Key::new(id, note_name(m), 9 + 6 * c, 30, note_cluster(m)).note(m));
        c = c + 1;
    }
    let m: u8 = 80;
    push_key(keys, Key::new(82, note_name(m), 81, 30, note_cluster(m)).note(m));
}

/// The navigation block and, under it, the arrows.
fn push_nav_and_arrows(keys: &mut Vec<Key>)
    requires
        old(keys)@.len() == 82,
        built_prefix(old(keys)@),
    ensures
        final(keys)@.len() == 92,
        built_prefix(final(keys)@),
{
    let nav = NAV_COL;
    push_key(keys, Key::new(83, "Insert", nav, 6, Cluster::Nav).sub("Triangle"));
    push_key(keys, Key::new(84, "Home", nav + 6, 6, Cluster::Nav).sub("Square"));
    push_key(keys, Key::new(85, "PgUp", nav + 12, 6, Cluster::Nav).sub("Saw"));
    push_key(keys, Key::new(86, "Delete", nav, 12, Cluster::Nav));
    push_key(keys, Key::new(87, "End", nav + 6, 12, Cluster::Nav));
    push_key(keys, Key::new(88, "PgDn", nav + 12, 12, Cluster::Nav));
    push_key(keys, Key::new(89, "↑", nav + 6, 24, Cluster::Arrow));
    push_key(keys, Key::new(90, "←", nav, 30, Cluster::Arrow));
    push_key(keys, Key::new(91, "↓", nav + 6, 30, Cluster::Arrow));
    push_key(keys, Key::new(92, "→", nav + 12, 30, Cluster::Arrow));
}

/// Numpad rows 0 and 1 of its uniform 4x5 grid.
fn push_numpad_top(keys: &mut Vec<Key>)
    requires
        old(keys)@.len() == 92,
        built_prefix(old(keys)@),
    ensures
        final(keys)@.len() == 100,
        built_prefix(final(keys)@),
{
    let np = NUMPAD_COL;
    push_key(keys, Key::new(93, "Num", np, 0, Cluster::Numpad).sub("Lock"));
    push_key(keys, Key::new(94, "/", np + 6, 0, Cluster::Numpad));
    push_key(keys, Key::new(95, "*", np + 12, 0, Cluster::Numpad));
    push_key(keys, Key::new(96, "-", np + 18, 0, Cluster::Numpad));
    push_key(keys, Key::new(97, "7", np, 6, Cluster::Numpad).sub("Home"));
    push_key(keys, Key::new(98, "8", np + 6, 6, Cluster::Numpad).sub("↑"));
    push_key(keys, Key::new(99, "9", np + 12, 6, Cluster::Numpad).sub("Pg Up"));
    push_key(keys, Key::new(100, "+", np + 18, 6, Cluster::Numpad));
}

/// Numpad rows 2 and 3.
fn push_numpad_middle(keys: &mut Vec<Key>)
    requires
        old(keys)@.len() == 100,
        built_prefix(old(keys)@),
    ensures
        final(keys)@.len() == 108,
        built_prefix(final(keys)@),
{
    let np = NUMPAD_COL;
    push_key(keys, Key::new(101, "4", np, 12, Cluster::Numpad).sub("←"));
    push_key(keys, Key::new(102, "5", np + 6, 12, Cluster::Numpad));
    push_key(keys, Key::new(103, "6", np + 12, 12, Cluster::Numpad).sub("→"));
    push_key(keys, Key::new(104, "+", np + 18, 12, Cluster::Numpad));
    push_key(keys, Key::new(105, "1", np, 18, Cluster::Numpad).sub("End"));
    push_key(keys, Key::new(106, "2", np + 6, 18, Cluster::Numpad).sub("↓"));
    push_key(keys, Key::new(107, "3", np + 12, 18, Cluster::Numpad).sub("Pg Dn"));
    push_key(keys, Key::new(108, "Shift", np + 18, 18, Cluster::Numpad));
}

/// Numpad row 4.
fn push_numpad_bottom(keys: &mut Vec<Key>)
    requires
        old(keys)@.len() == 108,
        built_prefix(old(keys)@),
    ensures
        final(keys)@.len() == KEY_COUNT,
        built_prefix(final(keys)@),
{
    let np = NUMPAD_COL;
    push_key(keys, Key::new(109, "0", np, 24, Cluster::Numpad).sub("Ins"));
    push_key(keys, Key::new(110, "00", np + 6, 24, Cluster::Numpad));
    push_key(keys, Key::new(111, ".", np + 12, 24, Cluster::Numpad).sub("Del"));
    push_key(keys, Key::new(112, "PgUp", np + 18, 24, Cluster::Numpad));
}

fn build_keys() -> (keys: Vec<Key>)
    ensures
        keys@.len() == KEY_COUNT,
        built_prefix(keys@),
{
    let mut keys: Vec<Key> = Vec::new();
    push_encoders(&mut keys);
    push_row_1(&mut keys);
    push_full_row(&mut keys, 26, 71, 12);
    push_row_3(&mut keys);
    push_full_row(&mut keys, 55, 59, 24);
    push_row_5(&mut keys);
    push_nav_and_arrows(&mut keys);
    push_numpad_top(&mut keys);
    push_numpad_middle(&mut keys);
    push_numpad_bottom(&mut keys);
    keys
}

/// Builds the board: its keys in `layout_key` order, the keys of each note in
/// board order, the set of notes present, and the drum pads' notes.
pub fn build_layout() -> (r: Layout)
    ensures
        r.keys@.len() == KEY_COUNT,
        forall|i: int| 0 <= i < KEY_COUNT ==> #[trigger] r.keys@[i]@ == layout_key(i),
        forall|n: u8|
            #[trigger] r.note_to_all_keys@.contains_key(n) <==> ids_with_note(n, KEY_COUNT as int).len() > 0,
        forall|n: u8|
            #[trigger] r.note_to_all_keys@.contains_key(n) ==> r.note_to_all_keys@[n]@ == ids_with_note(n, KEY_COUNT as int),
        forall|n: u8| #[trigger] r.keyboard_notes@.contains(n) <==> r.note_to_all_keys@.contains_key(n),
        forall|n: u8| #[trigger] r.drum_note_to_key@.contains_key(n) <==> 36 <= n <= 55,
        forall|j: int|
            0 <= j < 20 ==> r.drum_note_to_key@[#[trigger] DRUM_PAD_NOTES@[j]] == r.keys@[NUMPAD_START + j].id,
{
    broadcast use vstd::std_specs::hash::group_hash_axioms;

    let keys = build_keys();

    let mut note_to_all_keys: HashMap<u8, Vec<KeyId>> = HashMap::new();
    let mut keyboard_notes: HashSet<u8> = HashSet::new();
    let mut i: usize = 0;
    while i < keys.len()
        invariant
            keys@.len() == KEY_COUNT,
            built_prefix(keys@),
            0 <= i <= KEY_COUNT,
            forall|n: u8| #[trigger] note_to_all_keys@.contains_key(n) <==> ids_with_note(n, i as int).len() > 0,
            forall|n: u8|
                #[trigger] note_to_all_keys@.contains_key(n) ==> note_to_all_keys@[n]@ == ids_with_note(n, i as int),
            forall|n: u8| #[trigger] keyboard_notes@.contains(n) <==> note_to_all_keys@.contains_key(n),
        decreases KEY_COUNT - i,
    {
        assert(keys@[i as int]@ == layout_key(i as int));
        match keys[i].midi_note {
            Some(n) => {
                let id = keys[i].id;
                let existing = note_to_all_keys.remove(&n);
                let mut ids = match existing {
                    Some(v) => v,
                    None => Vec::new(),
                };
                proof {
                    if existing is None {
                        assert(ids_with_note(n, i as int) =~= Seq::<KeyId>::empty());
                    }
                }
                ids.push(id);
                note_to_all_keys.insert(n, ids);
                keyboard_notes.insert(n);
                proof {
                    assert forall|m: u8| #[trigger] note_to_all_keys@.contains_key(m) implies note_to_all_keys@[m]@ == ids_with_note(m, i + 1) by {
                        if m == n {
                            assert(note_to_all_keys@[m]@ =~= ids_with_note(m, i + 1));
                        }
                    }
                }
            },
            None => {},
        }
        i = i + 1;
    }

    let mut drum_note_to_key: HashMap<u8, KeyId> = HashMap::new();
    let mut j: usize = 0;
    while j < 20
        invariant
            keys@.len() == KEY_COUNT,
            0 <= j <= 20,
            forall|n: u8| #[trigger] drum_note_to_key@.contains_key(n) <==> 36 <= n < 36 + j,
            forall|k: int|
                0 <= k < j ==> drum_note_to_key@[#[trigger] DRUM_PAD_NOTES@[k]] == keys@[NUMPAD_START + k].id,
        decreases 20 - j,
    {
        assert(DRUM_PAD_NOTES@[j as int] == 36 + j);
        drum_note_to_key.insert(DRUM_PAD_NOTES[j], keys[NUMPAD_START + j].id);
        proof {
            assert forall|k: int| 0 <= k < j + 1 implies drum_note_to_key@[#[trigger] DRUM_PAD_NOTES@[k]] == keys@[NUMPAD_START + k].id by {
                assert(DRUM_PAD_NOTES@[k] == 36 + k);
            }
        }
        j = j + 1;
    }

    Layout { keys, note_to_all_keys, keyboard_notes, drum_note_to_key }
}

pub open spec fn is_alpha(c: Cluster) -> bool {
    c == Cluster::Alpha || c == Cluster::AlphaLight
}

/// The keys of `section` span exactly the columns `left` to `right` of the
/// board: none reaches past either edge, and some key touches each.
pub open spec fn horizontal_extent(section: spec_fn(Cluster) -> bool, left: int, right: int) -> bool {
    &&& forall|i: int|
        0 <= i < KEY_COUNT && #[trigger] section(layout_key(i).cluster) ==> left <= layout_key(i).col
            && layout_key(i).col + layout_key(i).w <= right
    &&& exists|i: int| 0 <= i < KEY_COUNT && section(layout_key(i).cluster) && layout_key(i).col == left
    &&& exists|i: int|
        0 <= i < KEY_COUNT && section(layout_key(i).cluster) && layout_key(i).col + layout_key(i).w == right
}

/// The right-hand sections share alignment and spacing: the navigation block
/// and the arrows span the same columns, and the gap from the alpha block to
/// them equals the gap from them to the numpad.
pub proof fn lemma_right_hand_sections_aligned()
    ensures
        horizontal_extent(|c: Cluster| is_alpha(c), 0, 90),
        horizontal_extent(|c: Cluster| c == Cluster::Nav, NAV_COL as int, NAV_COL + 18),
        horizontal_extent(|c: Cluster| c == Cluster::Arrow, NAV_COL as int, NAV_COL + 18),
        horizontal_extent(|c: Cluster| c == Cluster::Numpad, NUMPAD_COL as int, NUMPAD_COL + 24),
        NAV_COL - 90 == NUMPAD_COL - (NAV_COL + 18),
{
    let alpha = |c: Cluster| is_alpha(c);
    let nav = |c: Cluster| c == Cluster::Nav;
    let arrow = |c: Cluster| c == Cluster::Arrow;
    let numpad = |c: Cluster| c == Cluster::Numpad;
    assert(alpha(layout_key(12).cluster) && layout_key(12).col == 0);
    assert(alpha(layout_key(25).cluster) && layout_key(25).col + layout_key(25).w == 90);
    assert(nav(layout_key(82).cluster) && layout_key(82).col == NAV_COL);
    assert(nav(layout_key(84).cluster) && layout_key(84).col + layout_key(84).w == NAV_COL + 18);
    assert(arrow(layout_key(89).cluster) && layout_key(89).col == NAV_COL);
    assert(arrow(layout_key(91).cluster) && layout_key(91).col + layout_key(91).w == NAV_COL + 18);
    assert(numpad(layout_key(92).cluster) && layout_key(92).col == NUMPAD_COL);
    assert(numpad(layout_key(95).cluster) && layout_key(95).col + layout_key(95).w == NUMPAD_COL + 24);
}

/// Only the alpha keys play notes, and a key further along the board never
/// sits on a higher row than an earlier one that plays a note.
proof fn lemma_note_rows_ordered(p: int, q: int)
    requires
        0 <= p < q < KEY_COUNT,
        layout_key(p).midi_note is Some,
        layout_key(q).midi_note is Some,
    ensures
        is_alpha(layout_key(p).cluster),
        layout_key(p).row <= layout_key(q).row,
{
}

/// The keys listed for a note are listed top row first, and each of them
/// plays that note.
pub proof fn lemma_note_keys_top_row_first(n: u8, i: int)
    requires
        0 <= i <= KEY_COUNT,
    ensures
        forall|a: int|
            0 <= a < ids_with_note(n, i).len() ==> {
                let id = #[trigger] ids_with_note(n, i)[a].0;
                &&& 1 <= id <= i
                &&& layout_key(id - 1).midi_note == Some(n)
            },
        forall|a: int, b: int|
            0 <= a < b < ids_with_note(n, i).len() ==> {
                let ida = #[trigger] ids_with_note(n, i)[a].0;
                let idb = #[trigger] ids_with_note(n, i)[b].0;
                &&& ida < idb
                &&& layout_key(ida - 1).row <= layout_key(idb - 1).row
            },
    decreases i,
{
    if i > 0 {
        lemma_note_keys_top_row_first(n, i - 1);
        let prev = ids_with_note(n, i - 1);
        if layout_key(i - 1).midi_note == Some(n) {
            let cur = ids_with_note(n, i);
            assert(cur == prev.push(KeyId(i as u32)));
            assert forall|a: int, b: int| 0 <= a < b < cur.len() implies {
                let ida = #[trigger] cur[a].0;
                let idb = #[trigger] cur[b].0;
                &&& ida < idb
                &&& layout_key(ida - 1).row <= layout_key(idb - 1).row
            } by {
                if b == cur.len() - 1 {
                    assert(cur[a] == prev[a]);
                    lemma_note_rows_ordered(prev[a].0 - 1, i - 1);
                } else {
                    assert(cur[a] == prev[a] && cur[b] == prev[b]);
                }
            }
            assert forall|a: int| 0 <= a < cur.len() implies {
                let id = #[trigger] cur[a].0;
                &&& 1 <= id <= i
                &&& layout_key(id - 1).midi_note == Some(n)
            } by {
                if a < prev.len() {
                    assert(cur[a] == prev[a]);
                }
            }
        }
    }
}

/// Every alpha key of the board lands on a measured interval of its row's
/// source image, has a label guide, and that guide lies inside its crop.
pub proof fn lemma_alpha_keys_measured(i: int)
    requires
        0 <= i < KEY_COUNT,
        is_alpha(layout_key(i).cluster),
    ensures
        ({
            let k = layout_key(i);
            let row = k.row / 6;
            let index = annotated_index(row, k.col);
            &&& 1 <= row <= 5
            &&& index + 1 < alpha_boundaries(row).len()
            &&& alpha_guide_at(row, index) is Some
            &&& guide_inside(alpha_key_rect(row, k.col, k.w), alpha_guide_at(row, index)->0)
        }),
{
    let k = layout_key(i);
    let row = k.row / 6;
    let index = annotated_index(row, k.col);
    assert(12 <= i < 82);
    if i < 26 {
        assert(index == i - 12);
    } else if i < 41 {
        assert(index == i - 26);
    } else if i < 55 {
        assert(index == i - 41);
    } else if i < 70 {
        assert(index == i - 55);
    } else if i == 70 {
        assert(index == 0);
    } else if i < 81 {
        assert(index == i - 69);
    } else {
        assert(index == 13);
    }
    lemma_alpha_guide_inside_key(row, index);
}

} // verus!
