//! The settings mirrored into the page address: the query text that saves
//! them and the parse that restores them on a reload or from a shared link.
use vstd::prelude::*;

verus! {

/// Position of the first `c` in `s` at or after `i`; `s.len()` when none.
pub open spec fn find_char(s: Seq<char>, c: char, i: int) -> int
    decreases s.len() - i,
{
    if i < 0 || i >= s.len() {
        s.len() as int
    } else if s[i] == c {
        i
    } else {
        find_char(s, c, i + 1)
    }
}

proof fn lemma_find_char(s: Seq<char>, c: char, i: int)
    requires
        0 <= i <= s.len(),
    ensures
        i <= find_char(s, c, i) <= s.len(),
        find_char(s, c, i) < s.len() ==> s[find_char(s, c, i)] == c,
        forall|j: int| i <= j < find_char(s, c, i) ==> s[j] != c,
    decreases s.len() - i,
{
    if i < s.len() && s[i] != c {
        lemma_find_char(s, c, i + 1);
    }
}

/// The pieces of `s` from position `start` on, cut at every `sep`.
pub open spec fn split_from(s: Seq<char>, sep: char, start: int) -> Seq<Seq<char>>
    decreases s.len() - start,
{
    if start < 0 || start > s.len() {
        seq![]
    } else {
        let i = find_char(s, sep, start);
        if i >= s.len() || i < start {
            seq![s.subrange(start, s.len() as int)]
        } else {
            seq![s.subrange(start, i)] + split_from(s, sep, i + 1)
        }
    }
}

/// The pieces of `s` cut at every `sep` (one piece when there is none).
pub open spec fn split_on(s: Seq<char>, sep: char) -> Seq<Seq<char>> {
    split_from(s, sep, 0)
}

/// The pieces joined with `sep` between them.
pub open spec fn join_with(pieces: Seq<Seq<char>>, sep: char) -> Seq<char>
    decreases pieces.len(),
{
    if pieces.len() == 0 {
        seq![]
    } else if pieces.len() == 1 {
        pieces[0]
    } else {
        pieces[0] + seq![sep] + join_with(pieces.drop_first(), sep)
    }
}

pub open spec fn free_of(s: Seq<char>, c: char) -> bool {
    forall|j: int| 0 <= j < s.len() ==> s[j] != c
}

pub open spec fn views_of(v: Seq<String>) -> Seq<Seq<char>> {
    v.map_values(|x: String| x@)
}

proof fn lemma_split_after(prefix: Seq<char>, pieces: Seq<Seq<char>>, sep: char)
    requires
        pieces.len() >= 1,
        forall|k: int| 0 <= k < pieces.len() ==> free_of(#[trigger] pieces[k], sep),
    ensures
        split_from(prefix + join_with(pieces, sep), sep, prefix.len() as int) == pieces,
    decreases pieces.len(),
{
    let s = prefix + join_with(pieces, sep);
    let a = prefix.len() as int;
    let p0 = pieces[0];
    lemma_find_char(s, sep, a);
    let f = find_char(s, sep, a);
    assert(free_of(p0, sep));
    if pieces.len() == 1 {
        assert(s =~= prefix + p0);
        if f < s.len() {
            assert(s[f] == p0[f - a]);
        }
        assert(s.subrange(a, s.len() as int) =~= p0);
        assert(split_from(s, sep, a) =~= seq![p0]);
        assert(pieces =~= seq![p0]);
    } else {
        let rest = pieces.drop_first();
        let prefix2 = prefix + p0 + seq![sep];
        assert(s =~= prefix2 + join_with(rest, sep));
        let b = a + p0.len();
        assert(s[b] == sep);
        if f < b {
            assert(s[f] == p0[f - a]);
        }
        assert(f == b);
        assert(s.subrange(a, b) =~= p0);
        assert forall|k: int| 0 <= k < rest.len() implies free_of(#[trigger] rest[k], sep) by {
            assert(rest[k] == pieces[k + 1]);
        }
        lemma_split_after(prefix2, rest, sep);
        assert(prefix2.len() == b + 1);
        assert(split_from(s, sep, a) == seq![p0] + split_from(s, sep, b + 1));
        assert(pieces =~= seq![p0] + rest);
    }
}

/// Joining pieces free of the separator and cutting the result at the
/// separator gives the pieces back.
pub proof fn lemma_split_join(pieces: Seq<Seq<char>>, sep: char)
    requires
        pieces.len() >= 1,
        forall|k: int| 0 <= k < pieces.len() ==> free_of(#[trigger] pieces[k], sep),
    ensures
        split_on(join_with(pieces, sep), sep) == pieces,
{
    lemma_split_after(seq![], pieces, sep);
    assert(Seq::<char>::empty() + join_with(pieces, sep) =~= join_with(pieces, sep));
}

/// Cuts `s` at every `sep`.
pub fn split_text(s: &str, sep: char) -> (r: Vec<String>)
    ensures
        views_of(r@) == split_on(s@, sep),
{
    let n = s.unicode_len();
    let mut pieces: Vec<String> = Vec::new();
    let mut start: usize = 0;
    let mut i: usize = 0;
    proof {
        lemma_find_char(s@, sep, 0);
    }
    while i < n
        invariant
            n == s@.len(),
            start <= i <= n,
            views_of(pieces@) + split_from(s@, sep, start as int) == split_on(s@, sep),
            find_char(s@, sep, start as int) == find_char(s@, sep, i as int),
        decreases n - i,
    {
        if s.get_char(i) == sep {
            let piece = String::from_str(s.substring_char(start, i));
            let ghost before = pieces@;
            proof {
                lemma_find_char(s@, sep, i as int);
                assert(split_from(s@, sep, start as int) == seq![s@.subrange(start as int, i as int)] + split_from(
                    s@,
                    sep,
                    i + 1,
                ));
            }
            pieces.push(piece);
            proof {
                assert(views_of(pieces@) =~= views_of(before).push(piece@));
                assert(views_of(pieces@) + split_from(s@, sep, i + 1) =~= views_of(before) + split_from(
                    s@,
                    sep,
                    start as int,
                ));
            }
            start = i + 1;
        }
        i = i + 1;
    }
    let piece = String::from_str(s.substring_char(start, n));
    let ghost before = pieces@;
    proof {
        lemma_find_char(s@, sep, start as int);
        assert(split_from(s@, sep, start as int) == seq![s@.subrange(start as int, n as int)]);
    }
    pieces.push(piece);
    proof {
        assert(views_of(pieces@) =~= views_of(before).push(piece@));
        assert(views_of(pieces@) =~= views_of(before) + split_from(s@, sep, start as int));
    }
    pieces
}

} // verus!

verus! {

use crate::controls::{KeyPickMode, slug_waveform, waveform_slug_text, waveform_slug, waveform_from_slug, lemma_waveform_slug_roundtrip};
use crate::synth::Waveform;
use crate::text::{parse_i8, spec_parse_i8, signed_decimal, append_signed, str_equal, lemma_parse_signed_decimal};
use crate::settings::clamp_i8;
use crate::playback::opt_string;

/// `key=value`.
pub open spec fn param(key: Seq<char>, value: Seq<char>) -> Seq<char> {
    key + seq!['='] + value
}

/// A `key=value` piece cut at its first `=`; none without one.
pub open spec fn pair_of(piece: Seq<char>) -> Option<(Seq<char>, Seq<char>)> {
    let i = find_char(piece, '=', 0);
    if 0 <= i < piece.len() {
        Some((piece.subrange(0, i), piece.subrange(i + 1, piece.len() as int)))
    } else {
        None
    }
}

/// The value of the last piece with this key (a later piece overrides an
/// earlier one).
pub open spec fn lookup(pieces: Seq<Seq<char>>, key: Seq<char>) -> Option<Seq<char>>
    decreases pieces.len(),
{
    if pieces.len() == 0 {
        None
    } else {
        match pair_of(pieces.last()) {
            Some(kv) => if kv.0 == key {
                Some(kv.1)
            } else {
                lookup(pieces.drop_last(), key)
            },
            None => lookup(pieces.drop_last(), key),
        }
    }
}

/// The query of a page address's search part: without its leading `?`.
pub open spec fn query_text(search: Seq<char>) -> Seq<char> {
    if search.len() > 0 && search[0] == '?' {
        search.drop_first()
    } else {
        search
    }
}

/// The value the search part gives a key.
pub open spec fn query_lookup(search: Seq<char>, key: Seq<char>) -> Option<Seq<char>> {
    lookup(split_on(query_text(search), '&'), key)
}

fn split_pair(piece: &str) -> (r: Option<(String, String)>)
    ensures
        match r {
            Some(kv) => pair_of(piece@) == Some((kv.0@, kv.1@)),
            None => pair_of(piece@) is None,
        },
{
    let n = piece.unicode_len();
    let mut i: usize = 0;
    proof {
        lemma_find_char(piece@, '=', 0);
    }
    while i < n
        invariant
            n == piece@.len(),
            0 <= i <= n,
            find_char(piece@, '=', 0) == find_char(piece@, '=', i as int),
        decreases n - i,
    {
        if piece.get_char(i) == '=' {
            let k = String::from_str(piece.substring_char(0, i));
            let v = String::from_str(piece.substring_char(i + 1, n));
            return Some((k, v));
        }
        i = i + 1;
    }
    None
}

fn last_value(pieces: &Vec<String>, key: &str) -> (r: Option<String>)
    ensures
        opt_string(r) == lookup(views_of(pieces@), key@),
{
    let ghost all = views_of(pieces@);
    let mut i: usize = pieces.len();
    assert(all.take(i as int) =~= all);
    while i > 0
        invariant
            i <= pieces@.len(),
            all == views_of(pieces@),
            lookup(all, key@) == lookup(all.take(i as int), key@),
        decreases i,
    {
        let ghost part = all.take(i as int);
        assert(part.last() == pieces@[i - 1]@);
        assert(part.drop_last() =~= all.take(i - 1));
        match split_pair(pieces[i - 1].as_str()) {
            Some((k, v)) => {
                if str_equal(k.as_str(), key) {
                    return Some(v);
                }
            },
            None => {},
        }
        i = i - 1;
    }
    None
}

fn query_of(search: &str) -> (r: &str)
    ensures
        r@ == query_text(search@),
{
    let n = search.unicode_len();
    if n > 0 && search.get_char(0) == '?' {
        let q = search.substring_char(1, n);
        assert(q@ =~= search@.drop_first());
        q
    } else {
        search
    }
}

/// The value the search part of a page address gives a key (the last one
/// when the key repeats).
pub fn query_value(search: &str, key: &str) -> (r: Option<String>)
    ensures
        opt_string(r) == query_lookup(search@, key@),
{
    let pieces = split_text(query_of(search), '&');
    last_value(&pieces, key)
}

/// The settings kept in the page address, other than the knob positions.
pub struct UrlSettings {
    pub audio_enabled: bool,
    pub keyboard_hits_enabled: bool,
    pub drum_symbols_enabled: bool,
    pub compact_keyboard: bool,
    pub looper_enabled: bool,
    pub key_pick_mode: KeyPickMode,
    /// Semitones added to the notes played live.
    pub live_octave: i8,
    /// The waveform layers on.
    pub waveforms: Vec<Waveform>,
}

/// The settings as plain values.
pub struct UrlSettingsView {
    pub audio_enabled: bool,
    pub keyboard_hits_enabled: bool,
    pub drum_symbols_enabled: bool,
    pub compact_keyboard: bool,
    pub looper_enabled: bool,
    pub key_pick_mode: KeyPickMode,
    pub live_octave: i8,
    pub waveforms: Seq<Waveform>,
}

impl View for UrlSettings {
    type V = UrlSettingsView;

    open spec fn view(&self) -> UrlSettingsView {
        UrlSettingsView {
            audio_enabled: self.audio_enabled,
            keyboard_hits_enabled: self.keyboard_hits_enabled,
            drum_symbols_enabled: self.drum_symbols_enabled,
            compact_keyboard: self.compact_keyboard,
            looper_enabled: self.looper_enabled,
            key_pick_mode: self.key_pick_mode,
            live_octave: self.live_octave,
            waveforms: self.waveforms@,
        }
    }
}

/// An on/off setting: any value but `0` turns it on; absent, it stays.
pub open spec fn flag_from(current: bool, v: Option<Seq<char>>) -> bool {
    match v {
        Some(t) => t != "0"@,
        None => current,
    }
}

pub open spec fn row_from(current: KeyPickMode, v: Option<Seq<char>>) -> KeyPickMode {
    match v {
        Some(t) => if t == "lr"@ {
            KeyPickMode::LeftRight
        } else if t == "ud"@ {
            KeyPickMode::UpDown
        } else {
            KeyPickMode::Closest
        },
        None => current,
    }
}

/// The live shift is kept in octaves; an unreadable value leaves it.
pub open spec fn live_from(current: i8, v: Option<Seq<char>>) -> i8 {
    match v {
        Some(t) => match spec_parse_i8(t) {
            Some(o) => clamp_i8(o * 12),
            None => current,
        },
        None => current,
    }
}

/// The layers the URL names spell, skipping names of no layer.
pub open spec fn slug_list(pieces: Seq<Seq<char>>) -> Seq<Waveform>
    decreases pieces.len(),
{
    if pieces.len() == 0 {
        seq![]
    } else {
        slug_list(pieces.drop_last()) + match slug_waveform(pieces.last()) {
            Some(w) => seq![w],
            None => seq![],
        }
    }
}

pub open spec fn waveforms_from(current: Seq<Waveform>, v: Option<Seq<char>>) -> Seq<Waveform> {
    match v {
        Some(t) => slug_list(split_on(t, ',')),
        None => current,
    }
}

/// The settings a search part gives, starting from `c`.
pub open spec fn loaded(search: Seq<char>, c: UrlSettingsView) -> UrlSettingsView {
    UrlSettingsView {
        audio_enabled: flag_from(c.audio_enabled, query_lookup(search, "sound"@)),
        keyboard_hits_enabled: flag_from(c.keyboard_hits_enabled, query_lookup(search, "keys"@)),
        drum_symbols_enabled: flag_from(c.drum_symbols_enabled, query_lookup(search, "drum_symbols"@)),
        compact_keyboard: flag_from(c.compact_keyboard, query_lookup(search, "compact"@)),
        looper_enabled: flag_from(c.looper_enabled, query_lookup(search, "loop"@)),
        key_pick_mode: row_from(c.key_pick_mode, query_lookup(search, "row"@)),
        live_octave: live_from(c.live_octave, query_lookup(search, "live_octave"@)),
        waveforms: waveforms_from(c.waveforms, query_lookup(search, "waveforms"@)),
    }
}

fn flag_value(current: bool, v: Option<String>) -> (r: bool)
    ensures
        r == flag_from(current, opt_string(v)),
{
    match v {
        Some(t) => !str_equal(t.as_str(), "0"),
        None => current,
    }
}

fn waveforms_value(current: Vec<Waveform>, v: Option<String>) -> (r: Vec<Waveform>)
    ensures
        r@ == waveforms_from(current@, opt_string(v)),
{
    match v {
        Some(t) => {
            let names = split_text(t.as_str(), ',');
            let ghost all = views_of(names@);
            let mut out: Vec<Waveform> = Vec::new();
            let mut i: usize = 0;
            while i < names.len()
                invariant
                    0 <= i <= names@.len(),
                    all == views_of(names@),
                    out@ == slug_list(all.take(i as int)),
                decreases names@.len() - i,
            {
                let ghost before = all.take(i as int);
                assert(all.take(i + 1).drop_last() =~= before);
                assert(all.take(i + 1).last() == names@[i as int]@);
                match waveform_from_slug(names[i].as_str()) {
                    Some(w) => out.push(w),
                    None => {},
                }
                assert(out@ =~= slug_list(all.take(i + 1)));
                i = i + 1;
            }
            assert(all.take(names@.len() as int) =~= all);
            out
        },
        None => current,
    }
}

/// The settings the search part of a page address restores, starting from
/// `current`: each setting present in it is read, the others stay.
pub fn load_settings(search: &str, current: UrlSettings) -> (r: UrlSettings)
    ensures
        r@ == loaded(search@, current@),
{
    let pieces = split_text(query_of(search), '&');
    let audio_enabled = flag_value(current.audio_enabled, last_value(&pieces, "sound"));
    let keyboard_hits_enabled = flag_value(current.keyboard_hits_enabled, last_value(&pieces, "keys"));
    let drum_symbols_enabled = flag_value(current.drum_symbols_enabled, last_value(&pieces, "drum_symbols"));
    let compact_keyboard = flag_value(current.compact_keyboard, last_value(&pieces, "compact"));
    let looper_enabled = flag_value(current.looper_enabled, last_value(&pieces, "loop"));
    let key_pick_mode = match last_value(&pieces, "row") {
        Some(t) => if str_equal(t.as_str(), "lr") {
            KeyPickMode::LeftRight
        } else if str_equal(t.as_str(), "ud") {
            KeyPickMode::UpDown
        } else {
            KeyPickMode::Closest
        },
        None => current.key_pick_mode,
    };
    let live_octave = match last_value(&pieces, "live_octave") {
        Some(t) => match parse_i8(t.as_str()) {
            Some(o) => {
                let v: i16 = o as i16 * 12;
                if v < -128 {
                    -128
                } else if v > 127 {
                    127
                } else {
                    v as i8
                }
            },
            None => current.live_octave,
        },
        None => current.live_octave,
    };
    let waveforms = waveforms_value(current.waveforms, last_value(&pieces, "waveforms"));
    UrlSettings {
        audio_enabled,
        keyboard_hits_enabled,
        drum_symbols_enabled,
        compact_keyboard,
        looper_enabled,
        key_pick_mode,
        live_octave,
        waveforms,
    }
}

} // verus!

verus! {

use crate::controls::KeyPickMode as Rows;
use crate::synth::Waveform as Layer;

pub open spec fn opt_piece(cond: bool, piece: Seq<char>) -> Seq<Seq<char>> {
    if cond {
        seq![piece]
    } else {
        seq![]
    }
}

/// `v / 12`, rounded towards zero.
pub open spec fn trunc_div12(v: int) -> int {
    if v >= 0 {
        v / 12
    } else {
        -((-v) / 12)
    }
}

pub open spec fn slugs_of(ws: Seq<Layer>) -> Seq<Seq<char>> {
    ws.map_values(|w: Layer| waveform_slug_text(w))
}

/// The settings pieces of the page address: only the settings that differ
/// from a fresh viewer's, so a stock setup keeps a bare address.
pub open spec fn setting_params(s: UrlSettingsView) -> Seq<Seq<char>> {
    opt_piece(!s.audio_enabled, param("sound"@, "0"@))
        + opt_piece(s.keyboard_hits_enabled, param("keys"@, "1"@))
        + opt_piece(s.drum_symbols_enabled, param("drum_symbols"@, "1"@))
        + opt_piece(s.compact_keyboard, param("compact"@, "1"@))
        + opt_piece(s.looper_enabled, param("loop"@, "1"@))
        + opt_piece(s.key_pick_mode == Rows::LeftRight, param("row"@, "lr"@))
        + opt_piece(s.key_pick_mode == Rows::UpDown, param("row"@, "ud"@))
        + opt_piece(s.live_octave != 0, param("live_octave"@, signed_decimal(trunc_div12(s.live_octave as int))))
        + opt_piece(s.waveforms.len() > 0, param("waveforms"@, join_with(slugs_of(s.waveforms), ',')))
}

/// The search part of the page address for these pieces: none at all
/// without pieces.
pub open spec fn search_text(params: Seq<Seq<char>>) -> Seq<char> {
    if params.len() == 0 {
        seq![]
    } else {
        seq!['?'] + join_with(params, '&')
    }
}

pub(crate) proof fn lemma_join_push(p: Seq<Seq<char>>, x: Seq<char>, sep: char)
    ensures
        join_with(p.push(x), sep) == if p.len() == 0 {
            x
        } else {
            join_with(p, sep) + seq![sep] + x
        },
    decreases p.len(),
{
    let q = p.push(x);
    if p.len() == 0 {
        assert(q =~= seq![x]);
    } else if p.len() == 1 {
        assert(q.drop_first() =~= seq![x]);
        assert(q[0] == p[0]);
        assert(join_with(q, sep) == q[0] + seq![sep] + join_with(q.drop_first(), sep));
    } else {
        lemma_join_push(p.drop_first(), x, sep);
        assert(q.drop_first() =~= p.drop_first().push(x));
        assert(q[0] == p[0]);
        assert(join_with(q, sep) == q[0] + seq![sep] + join_with(q.drop_first(), sep));
        assert(join_with(p, sep) == p[0] + seq![sep] + join_with(p.drop_first(), sep));
        assert(join_with(q, sep) =~= join_with(p, sep) + seq![sep] + x);
    }
}

fn push_param(out: &mut Vec<String>, cond: bool, key: &str, value: &str)
    ensures
        views_of(final(out)@) == views_of(old(out)@) + opt_piece(cond, param(key@, value@)),
{
    let ghost before = views_of(out@);
    if cond {
        let mut p = String::from_str(key);
        p.append("=");
        p.append(value);
        proof {
            reveal_strlit("=");
        }
        assert(p@ =~= param(key@, value@));
        out.push(p);
        assert(views_of(out@) =~= before + seq![param(key@, value@)]);
    } else {
        assert(views_of(out@) =~= before + Seq::<Seq<char>>::empty());
    }
}

fn join_text(pieces: &Vec<String>, sep: &str) -> (r: String)
    requires
        sep@.len() == 1,
    ensures
        r@ == join_with(views_of(pieces@), sep@[0]),
{
    let ghost all = views_of(pieces@);
    let mut out = String::new();
    let mut i: usize = 0;
    assert(all.take(0) =~= Seq::<Seq<char>>::empty());
    while i < pieces.len()
        invariant
            0 <= i <= pieces@.len(),
            all == views_of(pieces@),
            sep@.len() == 1,
            out@ == join_with(all.take(i as int), sep@[0]),
        decreases pieces@.len() - i,
    {
        proof {
            lemma_join_push(all.take(i as int), all[i as int], sep@[0]);
            assert(all.take(i as int).push(all[i as int]) =~= all.take(i + 1));
            assert(sep@ =~= seq![sep@[0]]);
        }
        if i > 0 {
            out.append(sep);
        }
        out.append(pieces[i].as_str());
        i = i + 1;
    }
    assert(all.take(pieces@.len() as int) =~= all);
    out
}

fn slug_join(ws: &Vec<Layer>) -> (r: String)
    ensures
        r@ == join_with(slugs_of(ws@), ','),
{
    let ghost all = slugs_of(ws@);
    let mut out = String::new();
    let mut i: usize = 0;
    assert(all.take(0) =~= Seq::<Seq<char>>::empty());
    while i < ws.len()
        invariant
            0 <= i <= ws@.len(),
            all == slugs_of(ws@),
            out@ == join_with(all.take(i as int), ','),
        decreases ws@.len() - i,
    {
        proof {
            lemma_join_push(all.take(i as int), all[i as int], ',');
            assert(all.take(i as int).push(all[i as int]) =~= all.take(i + 1));
            reveal_strlit(",");
        }
        if i > 0 {
            out.append(",");
        }
        out.append(waveform_slug(ws[i]));
        i = i + 1;
    }
    assert(all.take(ws@.len() as int) =~= all);
    out
}

fn copy_pieces(pieces: &Vec<String>) -> (r: Vec<String>)
    ensures
        views_of(r@) == views_of(pieces@),
{
    let mut all: Vec<String> = Vec::new();
    let mut i: usize = 0;
    while i < pieces.len()
        invariant
            0 <= i <= pieces@.len(),
            views_of(all@) == views_of(pieces@).take(i as int),
        decreases pieces@.len() - i,
    {
        let ghost before = all@;
        let p = String::from_str(pieces[i].as_str());
        assert(p@ == pieces@[i as int]@);
        all.push(p);
        assert(views_of(all@) =~= views_of(before).push(pieces@[i as int]@));
        assert(views_of(pieces@).take(i + 1) =~= views_of(pieces@).take(i as int).push(pieces@[i as int]@));
        i = i + 1;
    }
    assert(views_of(pieces@).take(pieces@.len() as int) =~= views_of(pieces@));
    all
}

/// The decimal text of the live shift in whole octaves.
fn live_octaves_text(live_octave: i8) -> (r: String)
    ensures
        r@ == signed_decimal(trunc_div12(live_octave as int)),
{
    let v: i16 = live_octave as i16;
    let octaves: i16 = if v >= 0 { v / 12 } else { -((-v) / 12) };
    let mut text = String::new();
    append_signed(&mut text, octaves as i32);
    text
}

proof fn lemma_append_step(start: Seq<Seq<char>>, acc: Seq<Seq<char>>, x: Seq<Seq<char>>)
    ensures
        (start + acc) + x == start + (acc + x),
{
    assert((start + acc) + x =~= start + (acc + x));
}

#[verifier::rlimit(30)]
fn push_settings(all: &mut Vec<String>, s: &UrlSettings)
    ensures
        views_of(final(all)@) == views_of(old(all)@) + setting_params(s@),
{
    let ghost start = views_of(all@);
    let ghost v = s@;
    push_param(all, !s.audio_enabled, "sound", "0");
    let ghost a1 = opt_piece(!v.audio_enabled, param("sound"@, "0"@));
    assert(views_of(all@) == start + a1);
    push_param(all, s.keyboard_hits_enabled, "keys", "1");
    let ghost a2 = a1 + opt_piece(v.keyboard_hits_enabled, param("keys"@, "1"@));
    proof { lemma_append_step(start, a1, opt_piece(v.keyboard_hits_enabled, param("keys"@, "1"@))); }
    push_param(all, s.drum_symbols_enabled, "drum_symbols", "1");
    let ghost a3 = a2 + opt_piece(v.drum_symbols_enabled, param("drum_symbols"@, "1"@));
    proof { lemma_append_step(start, a2, opt_piece(v.drum_symbols_enabled, param("drum_symbols"@, "1"@))); }
    push_param(all, s.compact_keyboard, "compact", "1");
    let ghost a4 = a3 + opt_piece(v.compact_keyboard, param("compact"@, "1"@));
    proof { lemma_append_step(start, a3, opt_piece(v.compact_keyboard, param("compact"@, "1"@))); }
    push_param(all, s.looper_enabled, "loop", "1");
    let ghost a5 = a4 + opt_piece(v.looper_enabled, param("loop"@, "1"@));
    proof { lemma_append_step(start, a4, opt_piece(v.looper_enabled, param("loop"@, "1"@))); }
    push_param(all, s.key_pick_mode == Rows::LeftRight, "row", "lr");
    let ghost a6 = a5 + opt_piece(v.key_pick_mode == Rows::LeftRight, param("row"@, "lr"@));
    proof { lemma_append_step(start, a5, opt_piece(v.key_pick_mode == Rows::LeftRight, param("row"@, "lr"@))); }
    push_param(all, s.key_pick_mode == Rows::UpDown, "row", "ud");
    let ghost a7 = a6 + opt_piece(v.key_pick_mode == Rows::UpDown, param("row"@, "ud"@));
    proof { lemma_append_step(start, a6, opt_piece(v.key_pick_mode == Rows::UpDown, param("row"@, "ud"@))); }
    let live = live_octaves_text(s.live_octave);
    push_param(all, s.live_octave != 0, "live_octave", live.as_str());
    let ghost o8 = opt_piece(v.live_octave != 0, param("live_octave"@, signed_decimal(trunc_div12(v.live_octave as int))));
    let ghost a8 = a7 + o8;
    proof { lemma_append_step(start, a7, o8); }
    let names = slug_join(&s.waveforms);
    push_param(all, s.waveforms.len() > 0, "waveforms", names.as_str());
    let ghost o9 = opt_piece(v.waveforms.len() > 0, param("waveforms"@, join_with(slugs_of(v.waveforms), ',')));
    proof { lemma_append_step(start, a8, o9); }
    assert(a8 + o9 == setting_params(v));
}

/// The search part of the page address that saves the settings, after the
/// knob pieces (each `name=value`); empty when there is nothing to save.
pub fn settings_search(knob_params: &Vec<String>, s: &UrlSettings) -> (r: String)
    ensures
        r@ == search_text(views_of(knob_params@) + setting_params(s@)),
{
    let mut all = copy_pieces(knob_params);
    push_settings(&mut all, s);
    if all.len() == 0 {
        return String::new();
    }
    proof {
        reveal_strlit("?");
        reveal_strlit("&");
    }
    let joined = join_text(&all, "&");
    let mut out = String::from_str("?");
    out.append(joined.as_str());
    assert(out@ =~= seq!['?'] + join_with(views_of(all@), '&'));
    out
}

} // verus!

verus! {

use crate::text::{decimal, all_digits, lemma_decimal_digits};

proof fn lemma_pair_of_param(k: Seq<char>, v: Seq<char>)
    requires
        free_of(k, '='),
    ensures
        pair_of(param(k, v)) == Some((k, v)),
{
    let p = param(k, v);
    lemma_find_char(p, '=', 0);
    let f = find_char(p, '=', 0);
    assert(p[k.len() as int] == '=');
    if f < k.len() {
        assert(p[f] == k[f]);
    }
    assert(f == k.len());
    assert(p.subrange(0, f) =~= k);
    assert(p.subrange(f + 1, p.len() as int) =~= v);
}

proof fn lemma_lookup_opt(pre: Seq<Seq<char>>, cond: bool, k: Seq<char>, v: Seq<char>, key: Seq<char>)
    requires
        free_of(k, '='),
    ensures
        lookup(pre + opt_piece(cond, param(k, v)), key) == if cond && k == key {
            Some(v)
        } else {
            lookup(pre, key)
        },
{
    if cond {
        let all = pre + opt_piece(cond, param(k, v));
        assert(all.last() == param(k, v));
        assert(all.drop_last() =~= pre);
        lemma_pair_of_param(k, v);
    } else {
        assert(pre + opt_piece(cond, param(k, v)) =~= pre);
    }
}

proof fn lemma_lookup_opt_after(pre: Seq<Seq<char>>, acc: Seq<Seq<char>>, cond: bool, k: Seq<char>, v: Seq<char>, key: Seq<char>)
    requires
        free_of(k, '='),
    ensures
        lookup(pre + (acc + opt_piece(cond, param(k, v))), key) == if cond && k == key {
            Some(v)
        } else {
            lookup(pre + acc, key)
        },
{
    assert(pre + (acc + opt_piece(cond, param(k, v))) =~= (pre + acc) + opt_piece(cond, param(k, v)));
    lemma_lookup_opt(pre + acc, cond, k, v, key);
}

/// No piece has this key.
pub open spec fn key_absent(pieces: Seq<Seq<char>>, key: Seq<char>) -> bool {
    forall|j: int| 0 <= j < pieces.len() ==> !(#[trigger] pair_of(pieces[j]) matches Some(kv) && kv.0 == key)
}

proof fn lemma_lookup_absent(pieces: Seq<Seq<char>>, key: Seq<char>)
    requires
        key_absent(pieces, key),
    ensures
        lookup(pieces, key) is None,
    decreases pieces.len(),
{
    if pieces.len() > 0 {
        assert(pair_of(pieces[pieces.len() - 1]) == pair_of(pieces.last()));
        let rest = pieces.drop_last();
        assert forall|j: int| 0 <= j < rest.len() implies !(#[trigger] pair_of(rest[j]) matches Some(kv) && kv.0 == key) by {
            assert(rest[j] == pieces[j]);
        }
        lemma_lookup_absent(rest, key);
    }
}

proof fn lemma_join_free(pieces: Seq<Seq<char>>, sep: char, c: char)
    requires
        sep != c,
        forall|k: int| 0 <= k < pieces.len() ==> free_of(#[trigger] pieces[k], c),
    ensures
        free_of(join_with(pieces, sep), c),
    decreases pieces.len(),
{
    if pieces.len() > 1 {
        let rest = pieces.drop_first();
        assert forall|k: int| 0 <= k < rest.len() implies free_of(#[trigger] rest[k], c) by {
            assert(rest[k] == pieces[k + 1]);
        }
        lemma_join_free(rest, sep, c);
        assert(free_of(pieces[0], c));
        let j = join_with(pieces, sep);
        assert(j == pieces[0] + seq![sep] + join_with(rest, sep));
        assert forall|i: int| 0 <= i < j.len() implies j[i] != c by {
            if i < pieces[0].len() {
                assert(j[i] == pieces[0][i]);
            } else if i > pieces[0].len() {
                assert(j[i] == join_with(rest, sep)[i - pieces[0].len() - 1]);
            }
        }
    } else if pieces.len() == 1 {
        assert(free_of(pieces[0], c));
    }
}

proof fn lemma_slug_list(ws: Seq<Layer>)
    requires
        forall|i: int| 0 <= i < ws.len() ==> ws[i] != Layer::Organ,
    ensures
        slug_list(slugs_of(ws)) == ws,
    decreases ws.len(),
{
    if ws.len() > 0 {
        let rest = ws.drop_last();
        lemma_slug_list(rest);
        assert(slugs_of(ws).drop_last() =~= slugs_of(rest));
        lemma_waveform_slug_roundtrip(ws.last());
        assert(slugs_of(ws).last() == waveform_slug_text(ws.last()));
        assert(ws =~= rest + seq![ws.last()]);
    }
}

/// The settings of a fresh viewer: sound on, the other switches off, the
/// closest key for repeated notes, no live shift and no waveform layer.
pub open spec fn fresh_settings(d: UrlSettingsView) -> bool {
    &&& d.audio_enabled
    &&& !d.keyboard_hits_enabled && !d.drum_symbols_enabled && !d.compact_keyboard && !d.looper_enabled
    &&& d.key_pick_mode == Rows::Closest
    &&& d.live_octave == 0
    &&& d.waveforms.len() == 0
}

/// The names of the settings kept in the page address.
pub open spec fn setting_key(k: Seq<char>) -> bool {
    k == "sound"@ || k == "keys"@ || k == "drum_symbols"@ || k == "compact"@ || k == "loop"@ || k == "row"@
        || k == "live_octave"@ || k == "waveforms"@
}

/// A knob piece: free of `&`, and not named like a setting.
pub open spec fn knob_piece_ok(p: Seq<char>) -> bool {
    &&& free_of(p, '&')
    &&& (pair_of(p) matches Some(kv) ==> !setting_key(kv.0))
}

proof fn lemma_names()
    ensures
        free_of("sound"@, '=') && free_of("keys"@, '=') && free_of("drum_symbols"@, '=') && free_of("compact"@, '=')
            && free_of("loop"@, '=') && free_of("row"@, '=') && free_of("live_octave"@, '=') && free_of("waveforms"@, '='),
        free_of("sound"@, '&') && free_of("keys"@, '&') && free_of("drum_symbols"@, '&') && free_of("compact"@, '&')
            && free_of("loop"@, '&') && free_of("row"@, '&') && free_of("live_octave"@, '&') && free_of("waveforms"@, '&'),
        free_of("0"@, '&') && free_of("1"@, '&') && free_of("lr"@, '&') && free_of("ud"@, '&'),
        "sound"@ != "keys"@ && "sound"@ != "drum_symbols"@ && "sound"@ != "compact"@ && "sound"@ != "loop"@
            && "sound"@ != "row"@ && "sound"@ != "live_octave"@ && "sound"@ != "waveforms"@,
        "keys"@ != "drum_symbols"@ && "keys"@ != "compact"@ && "keys"@ != "loop"@ && "keys"@ != "row"@
            && "keys"@ != "live_octave"@ && "keys"@ != "waveforms"@,
        "drum_symbols"@ != "compact"@ && "drum_symbols"@ != "loop"@ && "drum_symbols"@ != "row"@
            && "drum_symbols"@ != "live_octave"@ && "drum_symbols"@ != "waveforms"@,
        "compact"@ != "loop"@ && "compact"@ != "row"@ && "compact"@ != "live_octave"@ && "compact"@ != "waveforms"@,
        "loop"@ != "row"@ && "loop"@ != "live_octave"@ && "loop"@ != "waveforms"@,
        "row"@ != "live_octave"@ && "row"@ != "waveforms"@,
        "live_octave"@ != "waveforms"@,
        "0"@ != "1"@ && "lr"@ != "ud"@,
{
    reveal_strlit("sound");
    reveal_strlit("keys");
    reveal_strlit("drum_symbols");
    reveal_strlit("compact");
    reveal_strlit("loop");
    reveal_strlit("row");
    reveal_strlit("live_octave");
    reveal_strlit("waveforms");
    reveal_strlit("0");
    reveal_strlit("1");
    reveal_strlit("lr");
    reveal_strlit("ud");
    assert("keys"@[0] != "loop"@[0]);
    assert("lr"@[0] != "ud"@[0]);
    assert("0"@[0] != "1"@[0]);
}

} // verus!

verus! {

pub open spec fn all_free(ps: Seq<Seq<char>>, c: char) -> bool {
    forall|j: int| 0 <= j < ps.len() ==> free_of(#[trigger] ps[j], c)
}

proof fn lemma_all_free_concat(a: Seq<Seq<char>>, b: Seq<Seq<char>>, c: char)
    requires
        all_free(a, c),
        all_free(b, c),
    ensures
        all_free(a + b, c),
{
    assert forall|j: int| 0 <= j < (a + b).len() implies free_of(#[trigger] (a + b)[j], c) by {
        if j < a.len() {
            assert((a + b)[j] == a[j]);
        } else {
            assert((a + b)[j] == b[j - a.len()]);
        }
    }
}

proof fn lemma_opt_free(cond: bool, k: Seq<char>, v: Seq<char>)
    requires
        free_of(k, '&'),
        free_of(v, '&'),
    ensures
        all_free(opt_piece(cond, param(k, v)), '&'),
{
    let p = param(k, v);
    assert forall|i: int| 0 <= i < p.len() implies p[i] != '&' by {
        if i < k.len() {
            assert(p[i] == k[i]);
        } else if i > k.len() {
            assert(p[i] == v[i - k.len() - 1]);
        }
    }
}

proof fn lemma_setting_params_free(s: UrlSettingsView)
    ensures
        all_free(setting_params(s), '&'),
{
    lemma_names();
    let n = trunc_div12(s.live_octave as int);
    let live = signed_decimal(n);
    assert(free_of(live, '&')) by {
        let m: nat = if n < 0 { (-n) as nat } else { n as nat };
        lemma_decimal_digits(m);
        assert(all_digits(decimal(m)));
        if n < 0 {
            assert(live =~= seq!['-'] + decimal(m));
            assert forall|i: int| 0 <= i < live.len() implies live[i] != '&' by {
                if i > 0 {
                    assert(live[i] == decimal(m)[i - 1]);
                }
            }
        }
    }
    let slugs = slugs_of(s.waveforms);
    assert forall|k: int| 0 <= k < slugs.len() implies free_of(#[trigger] slugs[k], '&') by {
        lemma_waveform_slug_roundtrip(s.waveforms[k]);
    }
    lemma_join_free(slugs, ',', '&');
    lemma_opt_free(!s.audio_enabled, "sound"@, "0"@);
    lemma_opt_free(s.keyboard_hits_enabled, "keys"@, "1"@);
    lemma_opt_free(s.drum_symbols_enabled, "drum_symbols"@, "1"@);
    lemma_opt_free(s.compact_keyboard, "compact"@, "1"@);
    lemma_opt_free(s.looper_enabled, "loop"@, "1"@);
    lemma_opt_free(s.key_pick_mode == Rows::LeftRight, "row"@, "lr"@);
    lemma_opt_free(s.key_pick_mode == Rows::UpDown, "row"@, "ud"@);
    lemma_opt_free(s.live_octave != 0, "live_octave"@, live);
    lemma_opt_free(s.waveforms.len() > 0, "waveforms"@, join_with(slugs, ','));
    let o1 = opt_piece(!s.audio_enabled, param("sound"@, "0"@));
    let o2 = opt_piece(s.keyboard_hits_enabled, param("keys"@, "1"@));
    let o3 = opt_piece(s.drum_symbols_enabled, param("drum_symbols"@, "1"@));
    let o4 = opt_piece(s.compact_keyboard, param("compact"@, "1"@));
    let o5 = opt_piece(s.looper_enabled, param("loop"@, "1"@));
    let o6 = opt_piece(s.key_pick_mode == Rows::LeftRight, param("row"@, "lr"@));
    let o7 = opt_piece(s.key_pick_mode == Rows::UpDown, param("row"@, "ud"@));
    let o8 = opt_piece(s.live_octave != 0, param("live_octave"@, live));
    let o9 = opt_piece(s.waveforms.len() > 0, param("waveforms"@, join_with(slugs, ',')));
    lemma_all_free_concat(o1, o2, '&');
    lemma_all_free_concat(o1 + o2, o3, '&');
    lemma_all_free_concat(o1 + o2 + o3, o4, '&');
    lemma_all_free_concat(o1 + o2 + o3 + o4, o5, '&');
    lemma_all_free_concat(o1 + o2 + o3 + o4 + o5, o6, '&');
    lemma_all_free_concat(o1 + o2 + o3 + o4 + o5 + o6, o7, '&');
    lemma_all_free_concat(o1 + o2 + o3 + o4 + o5 + o6 + o7, o8, '&');
    lemma_all_free_concat(o1 + o2 + o3 + o4 + o5 + o6 + o7 + o8, o9, '&');
}

/// The value the saved pieces give a setting.
pub open spec fn saved_value(s: UrlSettingsView, key: Seq<char>) -> Option<Seq<char>> {
    if key == "sound"@ {
        if !s.audio_enabled { Some("0"@) } else { None }
    } else if key == "keys"@ {
        if s.keyboard_hits_enabled { Some("1"@) } else { None }
    } else if key == "drum_symbols"@ {
        if s.drum_symbols_enabled { Some("1"@) } else { None }
    } else if key == "compact"@ {
        if s.compact_keyboard { Some("1"@) } else { None }
    } else if key == "loop"@ {
        if s.looper_enabled { Some("1"@) } else { None }
    } else if key == "row"@ {
        if s.key_pick_mode == Rows::UpDown {
            Some("ud"@)
        } else if s.key_pick_mode == Rows::LeftRight {
            Some("lr"@)
        } else {
            None
        }
    } else if key == "live_octave"@ {
        if s.live_octave != 0 { Some(signed_decimal(trunc_div12(s.live_octave as int))) } else { None }
    } else {
        if s.waveforms.len() > 0 { Some(join_with(slugs_of(s.waveforms), ',')) } else { None }
    }
}

proof fn lemma_query_of_pieces(ps: Seq<Seq<char>>, key: Seq<char>)
    requires
        all_free(ps, '&'),
    ensures
        query_lookup(search_text(ps), key) == lookup(ps, key),
{
    let search = search_text(ps);
    if ps.len() > 0 {
        assert(search[0] == '?');
        assert(query_text(search) =~= join_with(ps, '&'));
        lemma_split_join(ps, '&');
        assert(split_on(query_text(search), '&') == ps);
    } else {
        let e = Seq::<char>::empty();
        assert(query_text(search) =~= e);
        lemma_find_char(e, '&', 0);
        assert(e.subrange(0, 0) =~= e);
        assert(split_on(e, '&') == split_from(e, '&', 0));
        assert(split_on(e, '&') =~= seq![e]);
        lemma_find_char(e, '=', 0);
        assert(pair_of(e) is None);
        assert(seq![e].last() == e);
        assert(seq![e].drop_last() =~= Seq::<Seq<char>>::empty());
        assert(lookup(Seq::<Seq<char>>::empty(), key) is None);
        assert(lookup(seq![e], key) == lookup(seq![e].drop_last(), key));
        assert(lookup(seq![e], key) is None);
        assert(lookup(ps, key) is None);
    }
}

proof fn lemma_query_reads_pieces(knobs: Seq<Seq<char>>, s: UrlSettingsView, key: Seq<char>)
    requires
        forall|j: int| 0 <= j < knobs.len() ==> knob_piece_ok(#[trigger] knobs[j]),
    ensures
        query_lookup(search_text(knobs + setting_params(s)), key) == lookup(knobs + setting_params(s), key),
{
    lemma_setting_params_free(s);
    assert(all_free(knobs, '&')) by {
        assert forall|j: int| 0 <= j < knobs.len() implies free_of(#[trigger] knobs[j], '&') by {
            assert(knob_piece_ok(knobs[j]));
        }
    }
    lemma_all_free_concat(knobs, setting_params(s), '&');
    lemma_query_of_pieces(knobs + setting_params(s), key);
}

#[verifier::rlimit(40)]
proof fn lemma_lookup_setting(knobs: Seq<Seq<char>>, s: UrlSettingsView, key: Seq<char>)
    requires
        setting_key(key),
        forall|j: int| 0 <= j < knobs.len() ==> knob_piece_ok(#[trigger] knobs[j]),
    ensures
        lookup(knobs + setting_params(s), key) == saved_value(s, key),
{
    lemma_names();
    assert forall|pre: Seq<Seq<char>>, acc: Seq<Seq<char>>, cond: bool, k: Seq<char>, v: Seq<char>|
        free_of(k, '=') implies #[trigger] lookup(pre + (acc + opt_piece(cond, param(k, v))), key) == (if cond && k == key {
            Some(v)
        } else {
            lookup(pre + acc, key)
        }) by {
        lemma_lookup_opt_after(pre, acc, cond, k, v, key);
    }
    assert forall|pre: Seq<Seq<char>>, cond: bool, k: Seq<char>, v: Seq<char>|
        free_of(k, '=') implies #[trigger] lookup(pre + opt_piece(cond, param(k, v)), key) == (if cond && k == key {
            Some(v)
        } else {
            lookup(pre, key)
        }) by {
        lemma_lookup_opt(pre, cond, k, v, key);
    }
    assert forall|j: int| 0 <= j < knobs.len() implies !(#[trigger] pair_of(knobs[j]) matches Some(kv) && kv.0 == key) by {
        assert(knob_piece_ok(knobs[j]));
    }
    lemma_lookup_absent(knobs, key);
}

/// The settings saved into the page address come back when it is loaded
/// into a fresh viewer, whatever knob pieces stand before them, as long as
/// the live shift is a whole number of octaves (the address keeps octaves)
/// and no layer is the organ tone (which is no layer).
pub proof fn lemma_settings_survive_a_reload(knobs: Seq<Seq<char>>, s: UrlSettingsView, d: UrlSettingsView)
    requires
        fresh_settings(d),
        s.live_octave % 12 == 0,
        forall|i: int| 0 <= i < s.waveforms.len() ==> s.waveforms[i] != Layer::Organ,
        forall|j: int| 0 <= j < knobs.len() ==> knob_piece_ok(#[trigger] knobs[j]),
    ensures
        loaded(search_text(knobs + setting_params(s)), d) == s,
{
    lemma_names();
    let search = search_text(knobs + setting_params(s));
    lemma_query_reads_pieces(knobs, s, "sound"@);
    lemma_query_reads_pieces(knobs, s, "keys"@);
    lemma_query_reads_pieces(knobs, s, "drum_symbols"@);
    lemma_query_reads_pieces(knobs, s, "compact"@);
    lemma_query_reads_pieces(knobs, s, "loop"@);
    lemma_query_reads_pieces(knobs, s, "row"@);
    lemma_query_reads_pieces(knobs, s, "live_octave"@);
    lemma_query_reads_pieces(knobs, s, "waveforms"@);
    lemma_lookup_setting(knobs, s, "sound"@);
    lemma_lookup_setting(knobs, s, "keys"@);
    lemma_lookup_setting(knobs, s, "drum_symbols"@);
    lemma_lookup_setting(knobs, s, "compact"@);
    lemma_lookup_setting(knobs, s, "loop"@);
    lemma_lookup_setting(knobs, s, "row"@);
    lemma_lookup_setting(knobs, s, "live_octave"@);
    lemma_lookup_setting(knobs, s, "waveforms"@);
    let r = loaded(search, d);
    assert(r.live_octave == s.live_octave) by {
        if s.live_octave != 0 {
            let o = trunc_div12(s.live_octave as int);
            assert(o * 12 == s.live_octave);
            lemma_parse_signed_decimal(o as i8);
        }
    }
    assert(r.waveforms =~= s.waveforms) by {
        if s.waveforms.len() > 0 {
            let slugs = slugs_of(s.waveforms);
            assert forall|k: int| 0 <= k < slugs.len() implies free_of(#[trigger] slugs[k], ',') by {
                lemma_waveform_slug_roundtrip(s.waveforms[k]);
            }
            lemma_split_join(slugs, ',');
            lemma_slug_list(s.waveforms);
        }
    }
}

} // verus!

verus! {

use crate::key::{Cluster, Key, KeyId};
use crate::controls::{waveform_key_label, label_for_waveform};

/// The first navigation key from `i` on whose label is `label`.
pub open spec fn nav_key_with(keys: Seq<Key>, label: Seq<char>, i: int) -> Option<KeyId>
    decreases keys.len() - i,
{
    if i < 0 || i >= keys.len() {
        None
    } else if keys[i].cluster == Cluster::Nav && keys[i].label@ == label {
        Some(keys[i].id)
    } else {
        nav_key_with(keys, label, i + 1)
    }
}

/// The waveform-select keys of the layers, in the layers' order, skipping a
/// layer whose key is not on the board.
pub open spec fn layer_keys(keys: Seq<Key>, ws: Seq<Layer>) -> Seq<KeyId>
    decreases ws.len(),
{
    if ws.len() == 0 {
        seq![]
    } else {
        layer_keys(keys, ws.drop_last()) + match waveform_key_label(ws.last()) {
            Some(l) => match nav_key_with(keys, l, 0) {
                Some(k) => seq![k],
                None => seq![],
            },
            None => seq![],
        }
    }
}

fn find_nav_key(keys: &[Key], label: &str) -> (r: Option<KeyId>)
    ensures
        r == nav_key_with(keys@, label@, 0),
{
    let mut i: usize = 0;
    while i < keys.len()
        invariant
            0 <= i <= keys@.len(),
            nav_key_with(keys@, label@, 0) == nav_key_with(keys@, label@, i as int),
        decreases keys@.len() - i,
    {
        if keys[i].cluster == Cluster::Nav && str_equal(keys[i].label, label) {
            return Some(keys[i].id);
        }
        i = i + 1;
    }
    None
}

/// The keys that select the waveform layers restored from the page address.
pub fn waveform_keys_for(keys: &[Key], waveforms: &[Layer]) -> (r: Vec<KeyId>)
    ensures
        r@ == layer_keys(keys@, waveforms@),
{
    let mut out: Vec<KeyId> = Vec::new();
    let mut i: usize = 0;
    while i < waveforms.len()
        invariant
            0 <= i <= waveforms@.len(),
            out@ == layer_keys(keys@, waveforms@.take(i as int)),
        decreases waveforms@.len() - i,
    {
        let ghost pre = waveforms@.take(i as int);
        assert(waveforms@.take(i + 1).drop_last() =~= pre);
        assert(waveforms@.take(i + 1).last() == waveforms@[i as int]);
        match label_for_waveform(waveforms[i]) {
            Some(l) => match find_nav_key(keys, l) {
                Some(k) => out.push(k),
                None => {},
            },
            None => {},
        }
        assert(out@ =~= layer_keys(keys@, waveforms@.take(i + 1)));
        i = i + 1;
    }
    assert(waveforms@.take(waveforms@.len() as int) =~= waveforms@);
    out
}

} // verus!
