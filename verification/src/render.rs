//! What the board shows of each key: drum pad names, track colours, key
//! colours, and the labels and lighting of a key face.
use vstd::prelude::*;

verus! {

/// Display name of the drum pad a GM percussion note plays (notes 36 to 55).
pub open spec fn drum_pad_label(note: u8) -> Option<Seq<char>> {
    match note {
        36 => Some("KICK"@),
        37 => Some("STICK"@),
        38 => Some("SNARE"@),
        39 => Some("CLAP"@),
        40 => Some("E.SNARE"@),
        41 => Some("LO FLOOR"@),
        42 => Some("CLOSED HH"@),
        43 => Some("HI FLOOR"@),
        44 => Some("PEDAL HH"@),
        45 => Some("LOW TOM"@),
        46 => Some("OPEN HH"@),
        47 => Some("LO-MID"@),
        48 => Some("HI-MID"@),
        49 => Some("CRASH"@),
        50 => Some("HIGH TOM"@),
        51 => Some("RIDE"@),
        52 => Some("CHINA"@),
        53 => Some("RIDE BELL"@),
        54 => Some("TAMBO"@),
        55 => Some("SPLASH"@),
        _ => None,
    }
}

pub fn drum_pad_name(note: u8) -> (r: Option<&'static str>)
    ensures
        r is Some <==> 36 <= note <= 55,
        r matches Some(s) ==> drum_pad_label(note) == Some(s@),
        r is None ==> drum_pad_label(note) is None,
{
    match note {
        36 => Some("KICK"),
        37 => Some("STICK"),
        38 => Some("SNARE"),
        39 => Some("CLAP"),
        40 => Some("E.SNARE"),
        41 => Some("LO FLOOR"),
        42 => Some("CLOSED HH"),
        43 => Some("HI FLOOR"),
        44 => Some("PEDAL HH"),
        45 => Some("LOW TOM"),
        46 => Some("OPEN HH"),
        47 => Some("LO-MID"),
        48 => Some("HI-MID"),
        49 => Some("CRASH"),
        50 => Some("HIGH TOM"),
        51 => Some("RIDE"),
        52 => Some("CHINA"),
        53 => Some("RIDE BELL"),
        54 => Some("TAMBO"),
        55 => Some("SPLASH"),
        _ => None,
    }
}

/// The twenty drum pads have twenty different names.
pub proof fn lemma_drum_pad_names_distinct(a: u8, b: u8)
    requires
        36 <= a <= 55,
        36 <= b <= 55,
        a != b,
    ensures
        drum_pad_label(a) != drum_pad_label(b),
{
    reveal_strlit("KICK");
    reveal_strlit("STICK");
    reveal_strlit("SNARE");
    reveal_strlit("CLAP");
    reveal_strlit("E.SNARE");
    reveal_strlit("LO FLOOR");
    reveal_strlit("CLOSED HH");
    reveal_strlit("HI FLOOR");
    reveal_strlit("PEDAL HH");
    reveal_strlit("LOW TOM");
    reveal_strlit("OPEN HH");
    reveal_strlit("LO-MID");
    reveal_strlit("HI-MID");
    reveal_strlit("CRASH");
    reveal_strlit("HIGH TOM");
    reveal_strlit("RIDE");
    reveal_strlit("CHINA");
    reveal_strlit("RIDE BELL");
    reveal_strlit("TAMBO");
    reveal_strlit("SPLASH");
    let la = drum_pad_label(a)->0;
    let lb = drum_pad_label(b)->0;
    assert(la.len() != lb.len() || exists|i: int| 0 <= i < la.len() && la[i] != lb[i]) by {
        if la.len() == lb.len() {
            assert(la[0] != lb[0] || la[1] != lb[1] || la[2] != lb[2] || la[3] != lb[3] || la[4] != lb[4] || la[5] != lb[5] || la[6] != lb[6]);
        }
    }
}

} // verus!

verus! {

use crate::key::Cluster;

/// Per-track highlight palette, cycled for files with more than eight tracks.
pub const TRACK_COLORS: [[u8; 3]; 8] = [
    [0x4F, 0xC3, 0xF7],
    [0xFF, 0xB7, 0x4D],
    [0xA5, 0xD6, 0xA7],
    [0xF4, 0x8F, 0xB1],
    [0xCE, 0x93, 0xD8],
    [0xFF, 0xF1, 0x76],
    [0xFF, 0x8A, 0x65],
    [0x80, 0xCB, 0xC4],
];

/// An opaque colour.
#[derive(Debug, Clone, Copy, PartialEq, Eq, Structural)]
pub struct Rgb {
    pub r: u8,
    pub g: u8,
    pub b: u8,
}

pub open spec fn rgb_of(a: [u8; 3]) -> Rgb {
    Rgb { r: a@[0], g: a@[1], b: a@[2] }
}

/// The highlight colour of track `track`.
pub fn track_color(track: usize) -> (r: Rgb)
    ensures
        r == rgb_of(TRACK_COLORS@[(track % 8) as int]),
{
    let c = TRACK_COLORS[track % 8];
    Rgb { r: c[0], g: c[1], b: c[2] }
}

/// Fill colour of a key and whether its text is white (black otherwise).
#[derive(Debug, Clone, Copy, PartialEq, Eq, Structural)]
pub struct KeyPalette {
    pub fill: Rgb,
    pub text_white: bool,
}

/// The colours of a key, lit by a track, as a warning, by hand, or unlit.
/// A stand-in for a note off the board glows warning pink; a melodic key lit
/// by a track takes the track's colour (gold when lit by hand); other
/// clusters have one lit and one unlit colour.
pub open spec fn spec_key_palette(cluster: Cluster, lit_track: Option<usize>) -> KeyPalette {
    let lit = lit_track is Some;
    let track_fill = match lit_track {
        Some(t) => if t != usize::MAX { rgb_of(TRACK_COLORS@[(t % 8) as int]) } else { Rgb { r: 0xFFu8, g: 0xA3u8, b: 0x55u8 } },
        None => Rgb { r: 0xFFu8, g: 0xA3u8, b: 0x55u8 },
    };
    if lit_track == Some((usize::MAX - 1) as usize) {
        KeyPalette { fill: Rgb { r: 0xFFu8, g: 0x3Du8, b: 0x72u8 }, text_white: true }
    } else {
        match cluster {
            Cluster::Alpha => if lit { KeyPalette { fill: track_fill, text_white: false } } else { KeyPalette { fill: Rgb { r: 0x70u8, g: 0x62u8, b: 0x86u8 }, text_white: true } },
            Cluster::AlphaLight => if lit { KeyPalette { fill: track_fill, text_white: false } } else { KeyPalette { fill: Rgb { r: 0xE6u8, g: 0xD9u8, b: 0xBDu8 }, text_white: false } },
            Cluster::Nav => if lit { KeyPalette { fill: Rgb { r: 0xFFu8, g: 0xB4u8, b: 0x58u8 }, text_white: false } } else { KeyPalette { fill: Rgb { r: 0xC8u8, g: 0xB8u8, b: 0xC9u8 }, text_white: false } },
            Cluster::Arrow => if lit { KeyPalette { fill: Rgb { r: 0xFFu8, g: 0x4Cu8, b: 0x82u8 }, text_white: true } } else { KeyPalette { fill: Rgb { r: 0xEFu8, g: 0x70u8, b: 0x68u8 }, text_white: false } },
            Cluster::Numpad => if lit { KeyPalette { fill: Rgb { r: 0x50u8, g: 0xD4u8, b: 0xC8u8 }, text_white: false } } else { KeyPalette { fill: Rgb { r: 0xD8u8, g: 0xCCu8, b: 0xBCu8 }, text_white: false } },
            Cluster::Encoder => KeyPalette { fill: Rgb { r: 0x1Du8, g: 0x1Bu8, b: 0x28u8 }, text_white: true },
        }
    }
}

pub fn key_palette(cluster: Cluster, lit_track: Option<usize>) -> (r: KeyPalette)
    ensures
        r == spec_key_palette(cluster, lit_track),
{
    let lit = lit_track.is_some();
    if lit_track == Some(usize::MAX - 1) {
        return KeyPalette { fill: Rgb { r: 0xFF, g: 0x3D, b: 0x72 }, text_white: true };
    }
    let track_fill: Rgb = match lit_track {
        Some(t) => if t != usize::MAX { track_color(t) } else { Rgb { r: 0xFF, g: 0xA3, b: 0x55 } },
        None => Rgb { r: 0xFF, g: 0xA3, b: 0x55 },
    };
    match cluster {
        Cluster::Alpha => if lit { KeyPalette { fill: track_fill, text_white: false } } else { KeyPalette { fill: Rgb { r: 0x70, g: 0x62, b: 0x86 }, text_white: true } },
        Cluster::AlphaLight => if lit { KeyPalette { fill: track_fill, text_white: false } } else { KeyPalette { fill: Rgb { r: 0xE6, g: 0xD9, b: 0xBD }, text_white: false } },
        Cluster::Nav => if lit { KeyPalette { fill: Rgb { r: 0xFF, g: 0xB4, b: 0x58 }, text_white: false } } else { KeyPalette { fill: Rgb { r: 0xC8, g: 0xB8, b: 0xC9 }, text_white: false } },
        Cluster::Arrow => if lit { KeyPalette { fill: Rgb { r: 0xFF, g: 0x4C, b: 0x82 }, text_white: true } } else { KeyPalette { fill: Rgb { r: 0xEF, g: 0x70, b: 0x68 }, text_white: false } },
        Cluster::Numpad => if lit { KeyPalette { fill: Rgb { r: 0x50, g: 0xD4, b: 0xC8 }, text_white: false } } else { KeyPalette { fill: Rgb { r: 0xD8, g: 0xCC, b: 0xBC }, text_white: false } },
        Cluster::Encoder => KeyPalette { fill: Rgb { r: 0x1D, g: 0x1B, b: 0x28 }, text_white: true },
    }
}

} // verus!

verus! {

use std::collections::{HashMap, HashSet};
use crate::key::{Key, KeyId};

/// What a board key shows: the track lighting it (if any), its colours,
/// its labels, and the drum note whose symbol replaces the labels.
pub struct KeyFace {
    pub lit_track: Option<usize>,
    pub palette: KeyPalette,
    pub primary: String,
    pub secondary: Option<String>,
    pub drum_note: Option<u8>,
}

/// The track lighting a key: the preview overlay first, then playback, then
/// a pressed key or an active control (lit by hand).
pub open spec fn spec_lit_track(
    id: u32,
    overlay: Option<Map<u32, usize>>,
    highlighted: Map<u32, usize>,
    selected: Set<u32>,
    pressed: Set<u32>,
) -> Option<usize> {
    if overlay matches Some(o) && o.contains_key(id) {
        Some(overlay->Some_0[id])
    } else if highlighted.contains_key(id) {
        Some(highlighted[id])
    } else if selected.contains(id) || pressed.contains(id) {
        Some(usize::MAX)
    } else {
        None
    }
}

/// The lowest drum note whose pad is this key, from note `n` on.
pub open spec fn pad_note_from(drums: Map<u8, KeyId>, id: KeyId, n: int) -> Option<u8>
    decreases 256 - n,
{
    if n < 0 || n > 255 {
        None
    } else if drums.contains_key(n as u8) && drums[n as u8] == id {
        Some(n as u8)
    } else {
        pad_note_from(drums, id, n + 1)
    }
}

pub open spec fn opt_text_of(o: Option<String>) -> Option<Seq<char>> {
    match o {
        Some(s) => Some(s@),
        None => None,
    }
}

fn lit_track_of(
    id: u32,
    overlay: Option<&HashMap<u32, usize>>,
    highlighted: &HashMap<u32, usize>,
    selected: &HashSet<u32>,
    pressed: &HashSet<u32>,
) -> (r: Option<usize>)
    ensures
        r == spec_lit_track(
            id,
            match overlay {
                Some(o) => Some(o@),
                None => None,
            },
            highlighted@,
            selected@,
            pressed@,
        ),
{
    broadcast use vstd::std_specs::hash::group_hash_axioms;

    match overlay {
        Some(o) => match o.get(&id) {
            Some(t) => {
                return Some(*t);
            },
            None => {},
        },
        None => {},
    }
    match highlighted.get(&id) {
        Some(t) => Some(*t),
        None => if selected.contains(&id) || pressed.contains(&id) {
            Some(usize::MAX)
        } else {
            None
        },
    }
}

fn pad_note(drums: &HashMap<u8, KeyId>, id: KeyId) -> (r: Option<u8>)
    ensures
        r == pad_note_from(drums@, id, 0),
{
    broadcast use vstd::std_specs::hash::group_hash_axioms;

    let mut n: u16 = 0;
    while n < 256
        invariant
            0 <= n <= 256,
            pad_note_from(drums@, id, 0) == pad_note_from(drums@, id, n as int),
        decreases 256 - n,
    {
        let note = n as u8;
        match drums.get(&note) {
            Some(k) => {
                if *k == id {
                    return Some(note);
                }
            },
            None => {},
        }
        n = n + 1;
    }
    None
}

/// What `key` shows, given the keys lit by a preview overlay and by
/// playback, the active controls and pressed keys (by id), the computer-key
/// labels projected onto the board, and whether drum pads show symbols.
/// A projected label takes the key's place and moves a note key's own label
/// below it; otherwise the sublabel goes there.
pub fn key_face(
    key: &Key,
    overlay: Option<&HashMap<u32, usize>>,
    highlighted: &HashMap<u32, usize>,
    selected: &HashSet<u32>,
    pressed: &HashSet<u32>,
    projected: Option<&HashMap<u32, String>>,
    show_drum_symbols: bool,
    drum_note_to_key: &HashMap<u8, KeyId>,
) -> (r: KeyFace)
    ensures
        r.lit_track == spec_lit_track(
            key.id.0,
            match overlay {
                Some(o) => Some(o@),
                None => None,
            },
            highlighted@,
            selected@,
            pressed@,
        ),
        r.palette == spec_key_palette(key.cluster, r.lit_track),
        r.drum_note == if show_drum_symbols { pad_note_from(drum_note_to_key@, key.id, 0) } else { None },
        ({
            let label = match projected {
                Some(p) => if p@.contains_key(key.id.0) { Some(p@[key.id.0]@) } else { None },
                None => None,
            };
            &&& r.primary@ == match label {
                Some(l) => l,
                None => key.label@,
            }
            &&& opt_text_of(r.secondary) == if label is Some && key.midi_note is Some {
                Some(key.label@)
            } else {
                match key.sublabel {
                    Some(s) => Some(s@),
                    None => None,
                }
            }
        }),
{
    broadcast use vstd::std_specs::hash::group_hash_axioms;

    let lit_track = lit_track_of(key.id.0, overlay, highlighted, selected, pressed);
    let palette = key_palette(key.cluster, lit_track);
    let drum_note = if show_drum_symbols { pad_note(drum_note_to_key, key.id) } else { None };
    let label: Option<&String> = match projected {
        Some(p) => p.get(&key.id.0),
        None => None,
    };
    let primary = match label {
        Some(l) => l.clone(),
        None => String::from_str(key.label),
    };
    let secondary = if label.is_some() && key.midi_note.is_some() {
        Some(String::from_str(key.label))
    } else {
        match key.sublabel {
            Some(s) => Some(String::from_str(s)),
            None => None,
        }
    };
    KeyFace { lit_track, palette, primary, secondary, drum_note }
}

} // verus!

verus! {

use crate::text::{append_decimal, decimal};
use crate::url_state::join_with;

/// The play-order badge of a drum pad: the steps it is struck at, joined
/// by middle dots ("1·3·4").
pub open spec fn badge_text(steps: Seq<usize>) -> Seq<char> {
    join_with(Seq::new(steps.len(), |i: int| decimal(steps[i] as nat)), '·')
}

pub fn play_order_badge(steps: &[usize]) -> (r: String)
    ensures
        r@ == badge_text(steps@),
{
    let ghost pieces = Seq::new(steps@.len(), |i: int| decimal(steps@[i] as nat));
    let mut out = String::new();
    let mut i: usize = 0;
    assert(pieces.take(0) =~= Seq::<Seq<char>>::empty());
    while i < steps.len()
        invariant
            0 <= i <= steps@.len(),
            pieces == Seq::new(steps@.len(), |i: int| decimal(steps@[i] as nat)),
            out@ == join_with(pieces.take(i as int), '·'),
        decreases steps@.len() - i,
    {
        proof {
            crate::url_state::lemma_join_push(pieces.take(i as int), pieces[i as int], '·');
            assert(pieces.take(i as int).push(pieces[i as int]) =~= pieces.take(i + 1));
            reveal_strlit("·");
        }
        if i > 0 {
            out.append("·");
        }
        append_decimal(&mut out, steps[i] as u64);
        i = i + 1;
    }
    assert(pieces.take(steps@.len() as int) =~= pieces);
    out
}

} // verus!
