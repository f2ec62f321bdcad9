//! The computer keyboard as a second instrument: which board keys each
//! computer key plays, and the computer-key names projected onto the board.
use vstd::prelude::*;
use std::collections::HashMap;
use crate::controls::ComputerKeyLocation;
use crate::key::{Cluster, Key, KeyId};
use crate::layout::is_alpha;
use crate::sort::{sort_by_tick, stable_sort, TickOrdered};
use crate::text::{lowercase, str_equal, to_lowercase};

verus! {

/// The named keys the board responds to; every other named key is `Other`.
#[derive(Debug, Clone, Copy, PartialEq, Eq, Hash, Structural)]
pub enum NamedKey {
    Backspace,
    Tab,
    CapsLock,
    Enter,
    Shift,
    Control,
    Fn,
    Meta,
    Super,
    Alt,
    AltGraph,
    Space,
    Insert,
    Home,
    PageUp,
    Delete,
    End,
    PageDown,
    ArrowUp,
    ArrowLeft,
    ArrowDown,
    ArrowRight,
    NumLock,
    Other,
}

/// A key as the window system reports it.
#[derive(Debug, Clone, PartialEq, Eq)]
pub enum RawKey {
    Named(NamedKey),
    Character(String),
    Unidentified,
}

/// A computer key, normalized so that pressing and releasing it match.
#[derive(Debug, Clone, PartialEq, Eq, Hash)]
pub enum ComputerKey {
    Character(String, ComputerKeyLocation),
    Named(NamedKey, ComputerKeyLocation),
}

/// Characters typed with Shift, and the key each is typed on.
pub const SHIFTED_SYMBOLS: [&'static str; 21] = [
    "~", "!", "@", "#", "$", "%", "^", "&", "*", "(", ")", "_", "+", "{", "}", "|", ":", "\"", "<", ">", "?",
];
pub const UNSHIFTED_SYMBOLS: [&'static str; 21] = [
    "`", "1", "2", "3", "4", "5", "6", "7", "8", "9", "0", "-", "=", "[", "]", "\\", ";", "'", ",", ".", "/",
];

/// Index of the first entry of `list` spelling `s`, from `i` on; the length
/// of the list when there is none.
pub open spec fn index_of_str(list: Seq<&'static str>, s: Seq<char>, i: int) -> int
    decreases list.len() - i,
{
    if i < 0 || i >= list.len() {
        list.len() as int
    } else if list[i]@ == s {
        i
    } else {
        index_of_str(list, s, i + 1)
    }
}

proof fn lemma_index_of_str(list: Seq<&'static str>, s: Seq<char>, i: int)
    requires
        0 <= i <= list.len(),
    ensures
        i <= index_of_str(list, s, i) <= list.len(),
        index_of_str(list, s, i) < list.len() ==> list[index_of_str(list, s, i)]@ == s,
    decreases list.len() - i,
{
    if i < list.len() && list[i]@ != s {
        lemma_index_of_str(list, s, i + 1);
    }
}

fn find_str(list: &[&'static str], s: &str) -> (r: usize)
    ensures
        r == index_of_str(list@, s@, 0),
{
    proof {
        lemma_index_of_str(list@, s@, 0);
    }
    let mut i: usize = 0;
    while i < list.len()
        invariant
            0 <= i <= list@.len(),
            index_of_str(list@, s@, 0) == index_of_str(list@, s@, i as int),
        ensures
            i == index_of_str(list@, s@, 0),
        decreases list@.len() - i,
    {
        if str_equal(list[i], s) {
            break;
        }
        i = i + 1;
    }
    i
}

/// The key a typed character sits on: a shifted symbol becomes the symbol
/// on the same key without Shift; anything else stays as it is.
pub open spec fn unshifted(s: Seq<char>) -> Seq<char> {
    let i = index_of_str(SHIFTED_SYMBOLS@, s, 0);
    if i < 21 { UNSHIFTED_SYMBOLS@[i]@ } else { s }
}

/// Normalizes a key event: characters are lowercased and, off the numpad,
/// taken without Shift, so a key pressed with Shift and released without it
/// is still the same key.
pub fn normalize_computer_key(key: RawKey, location: ComputerKeyLocation) -> (r: Option<ComputerKey>)
    ensures
        match key {
            RawKey::Named(n) => r == Some(ComputerKey::Named(n, location)),
            RawKey::Character(c) => r matches Some(ComputerKey::Character(s, l)) && l == location
                && s@ == (if location == ComputerKeyLocation::Numpad {
                lowercase(c@)
            } else {
                unshifted(lowercase(c@))
            }),
            RawKey::Unidentified => r is None,
        },
{
    match key {
        RawKey::Named(n) => Some(ComputerKey::Named(n, location)),
        RawKey::Character(c) => {
            let lower = to_lowercase(c.as_str());
            if location == ComputerKeyLocation::Numpad {
                Some(ComputerKey::Character(lower, location))
            } else {
                let i = find_str(&SHIFTED_SYMBOLS, lower.as_str());
                if i < 21 {
                    Some(ComputerKey::Character(String::from_str(UNSHIFTED_SYMBOLS[i]), location))
                } else {
                    Some(ComputerKey::Character(lower, location))
                }
            }
        },
        RawKey::Unidentified => None,
    }
}

/// A key id with the rank it is ordered by.
#[derive(Debug, Clone, Copy)]
pub struct Ranked {
    pub rank: u64,
    pub id: KeyId,
}

impl TickOrdered for Ranked {
    open spec fn sort_key(&self) -> u64 {
        self.rank
    }

    fn key(&self) -> (k: u64) {
        self.rank
    }
}

/// The alpha keys of row `row` (in sixths of a unit), ranked by column, in
/// the order they are listed.
pub open spec fn ranked_row(keys: Seq<Key>, row: u16) -> Seq<Ranked>
    decreases keys.len(),
{
    if keys.len() == 0 {
        seq![]
    } else {
        let rest = ranked_row(keys.drop_last(), row);
        let k = keys.last();
        if is_alpha(k.cluster) && k.row == row {
            rest.push(Ranked { rank: k.col as u64, id: k.id })
        } else {
            rest
        }
    }
}

/// The numpad keys ranked by row, then column.
pub open spec fn ranked_numpad(keys: Seq<Key>) -> Seq<Ranked>
    decreases keys.len(),
{
    if keys.len() == 0 {
        seq![]
    } else {
        let rest = ranked_numpad(keys.drop_last());
        let k = keys.last();
        if k.cluster == Cluster::Numpad {
            rest.push(Ranked { rank: (k.row as u64 * 65536 + k.col as u64) as u64, id: k.id })
        } else {
            rest
        }
    }
}

pub open spec fn ids_of(s: Seq<Ranked>) -> Seq<KeyId> {
    s.map_values(|r: Ranked| r.id)
}

/// Keys `start` to `end` (inclusive, counted left to right) of alpha row
/// `row`; none when the span runs past the row.
pub open spec fn spec_key_range(keys: Seq<Key>, row: u16, start: int, end: int) -> Seq<KeyId> {
    let sorted = stable_sort(ranked_row(keys, row));
    if 0 <= start <= end + 1 && end < sorted.len() {
        ids_of(sorted.subrange(start, end + 1))
    } else {
        seq![]
    }
}

fn collect_row(keys: &[Key], row: u16) -> (r: Vec<Ranked>)
    ensures
        r@ == ranked_row(keys@, row),
{
    let mut out: Vec<Ranked> = Vec::new();
    let mut i: usize = 0;
    while i < keys.len()
        invariant
            0 <= i <= keys@.len(),
            out@ == ranked_row(keys@.take(i as int), row),
        decreases keys@.len() - i,
    {
        proof {
            assert(keys@.take(i + 1).drop_last() =~= keys@.take(i as int));
        }
        let k = &keys[i];
        if (k.cluster == Cluster::Alpha || k.cluster == Cluster::AlphaLight) && k.row == row {
            out.push(Ranked { rank: k.col as u64, id: k.id });
        }
        i = i + 1;
    }
    assert(keys@.take(keys@.len() as int) =~= keys@);
    out
}

fn collect_numpad(keys: &[Key]) -> (r: Vec<Ranked>)
    ensures
        r@ == ranked_numpad(keys@),
{
    let mut out: Vec<Ranked> = Vec::new();
    let mut i: usize = 0;
    while i < keys.len()
        invariant
            0 <= i <= keys@.len(),
            out@ == ranked_numpad(keys@.take(i as int)),
        decreases keys@.len() - i,
    {
        proof {
            assert(keys@.take(i + 1).drop_last() =~= keys@.take(i as int));
        }
        let k = &keys[i];
        if k.cluster == Cluster::Numpad {
            out.push(Ranked { rank: k.row as u64 * 65536 + k.col as u64, id: k.id });
        }
        i = i + 1;
    }
    assert(keys@.take(keys@.len() as int) =~= keys@);
    out
}

/// Keys `start` to `end` (inclusive, left to right) of alpha row `row`.
pub fn key_range(keys: &[Key], row: u16, start: usize, end: usize) -> (r: Vec<KeyId>)
    ensures
        r@ == spec_key_range(keys@, row, start as int, end as int),
{
    let sorted = sort_by_tick(collect_row(keys, row).as_slice());
    let mut out: Vec<KeyId> = Vec::new();
    if start <= end && end < sorted.len() {
        let mut i = start;
        while i <= end
            invariant
                start <= i <= end + 1,
                end < sorted@.len(),
                sorted@.len() <= usize::MAX,
                out@ == ids_of(sorted@.subrange(start as int, i as int)),
            decreases end + 1 - i,
        {
            out.push(sorted[i].id);
            proof {
                assert(ids_of(sorted@.subrange(start as int, i + 1)) =~= ids_of(sorted@.subrange(start as int, i as int)).push(sorted@[i as int].id));
            }
            i = i + 1;
        }
    } else {
        proof {
            if start == end + 1 && end < sorted@.len() {
                assert(ids_of(sorted@.subrange(start as int, end + 1)) =~= Seq::<KeyId>::empty());
            }
        }
    }
    out
}

/// The first key of `cluster` labelled `label`, as a list of at most one.
pub open spec fn spec_cluster_key(keys: Seq<Key>, cluster: Cluster, label: Seq<char>, i: int) -> Seq<KeyId>
    decreases keys.len() - i,
{
    if i < 0 || i >= keys.len() {
        seq![]
    } else if keys[i].cluster == cluster && keys[i].label@ == label {
        seq![keys[i].id]
    } else {
        spec_cluster_key(keys, cluster, label, i + 1)
    }
}

pub fn cluster_key(keys: &[Key], cluster: Cluster, label: &str) -> (r: Vec<KeyId>)
    ensures
        r@ == spec_cluster_key(keys@, cluster, label@, 0),
{
    let mut i: usize = 0;
    while i < keys.len()
        invariant
            0 <= i <= keys@.len(),
            spec_cluster_key(keys@, cluster, label@, 0) == spec_cluster_key(keys@, cluster, label@, i as int),
        decreases keys@.len() - i,
    {
        if keys[i].cluster == cluster && str_equal(keys[i].label, label) {
            let mut r: Vec<KeyId> = Vec::new();
            r.push(keys[i].id);
            assert(r@ =~= seq![keys@[i as int].id]);
            return r;
        }
        i = i + 1;
    }
    Vec::new()
}

/// The numpad keys at the given positions of its row-major order, skipping
/// positions past its end.
pub open spec fn spec_numpad_range(keys: Seq<Key>, indices: Seq<usize>) -> Seq<KeyId>
    decreases indices.len(),
{
    if indices.len() == 0 {
        seq![]
    } else {
        let sorted = stable_sort(ranked_numpad(keys));
        let rest = spec_numpad_range(keys, indices.drop_last());
        let i = indices.last();
        if i < sorted.len() { rest.push(sorted[i as int].id) } else { rest }
    }
}

pub fn numpad_range(keys: &[Key], indices: &[usize]) -> (r: Vec<KeyId>)
    ensures
        r@ == spec_numpad_range(keys@, indices@),
{
    let sorted = sort_by_tick(collect_numpad(keys).as_slice());
    let mut out: Vec<KeyId> = Vec::new();
    let mut j: usize = 0;
    while j < indices.len()
        invariant
            0 <= j <= indices@.len(),
            sorted@ == stable_sort(ranked_numpad(keys@)),
            out@ == spec_numpad_range(keys@, indices@.take(j as int)),
        decreases indices@.len() - j,
    {
        proof {
            assert(indices@.take(j + 1).drop_last() =~= indices@.take(j as int));
        }
        let i = indices[j];
        if i < sorted.len() {
            out.push(sorted[i].id);
        }
        j = j + 1;
    }
    assert(indices@.take(indices@.len() as int) =~= indices@);
    out
}

} // verus!

verus! {

/// The character keys of the four upper rows of a computer keyboard.
pub const ROW_1_CHARS: [&'static str; 13] = ["`", "1", "2", "3", "4", "5", "6", "7", "8", "9", "0", "-", "="];
pub const ROW_2_CHARS: [&'static str; 13] = ["q", "w", "e", "r", "t", "y", "u", "i", "o", "p", "[", "]", "\\"];
pub const ROW_3_CHARS: [&'static str; 11] = ["a", "s", "d", "f", "g", "h", "j", "k", "l", ";", "'"];
pub const ROW_4_CHARS: [&'static str; 10] = ["z", "x", "c", "v", "b", "n", "m", ",", ".", "/"];

/// The numpad's character keys.
pub const NUMPAD_CHARS: [&'static str; 16] = ["/", "*", "-", "7", "8", "9", "+", "4", "5", "6", "1", "2", "3", "0", ".", ","];

/// The span of the board's alpha block a typed character plays: (row 1 to
/// 4, first key, last key). Each computer row sits under the board row of
/// the same number, shifted right by the keys its left edge starts with.
pub open spec fn char_span(c: Seq<char>) -> Option<(int, int, int)> {
    let i1 = index_of_str(ROW_1_CHARS@, c, 0);
    let i2 = index_of_str(ROW_2_CHARS@, c, 0);
    let i3 = index_of_str(ROW_3_CHARS@, c, 0);
    let i4 = index_of_str(ROW_4_CHARS@, c, 0);
    if i1 < 13 {
        Some((1, i1, i1))
    } else if i2 < 13 {
        Some((2, i2 + 2, i2 + 2))
    } else if i3 < 11 {
        Some((3, i3 + 1, i3 + 1))
    } else if i4 < 10 {
        Some((4, i4 + 2, i4 + 2))
    } else {
        None
    }
}

/// The span of the alpha block a named key plays.
pub open spec fn named_span(n: NamedKey, loc: ComputerKeyLocation) -> Option<(int, int, int)> {
    match (n, loc) {
        (NamedKey::Backspace, ComputerKeyLocation::Standard) => Some((1, 13, 13)),
        (NamedKey::Tab, ComputerKeyLocation::Standard) => Some((2, 0, 1)),
        (NamedKey::CapsLock, ComputerKeyLocation::Standard) => Some((3, 0, 0)),
        (NamedKey::Enter, ComputerKeyLocation::Standard) => Some((3, 12, 13)),
        (NamedKey::Shift, ComputerKeyLocation::Left) => Some((4, 0, 1)),
        (NamedKey::Shift, ComputerKeyLocation::Right) => Some((4, 12, 14)),
        (NamedKey::Control, ComputerKeyLocation::Left) => Some((5, 0, 0)),
        (NamedKey::Fn, ComputerKeyLocation::Left) => Some((5, 1, 1)),
        (NamedKey::Meta, ComputerKeyLocation::Left) => Some((5, 1, 1)),
        (NamedKey::Super, ComputerKeyLocation::Left) => Some((5, 1, 1)),
        (NamedKey::Alt, ComputerKeyLocation::Left) => Some((5, 2, 2)),
        (NamedKey::Space, _) => Some((5, 3, 8)),
        (NamedKey::Alt, ComputerKeyLocation::Right) => Some((5, 9, 9)),
        (NamedKey::AltGraph, ComputerKeyLocation::Right) => Some((5, 9, 9)),
        (NamedKey::Meta, ComputerKeyLocation::Right) => Some((5, 10, 10)),
        (NamedKey::Super, ComputerKeyLocation::Right) => Some((5, 10, 10)),
        (NamedKey::Control, ComputerKeyLocation::Right) => Some((5, 11, 11)),
        _ => None,
    }
}

pub open spec fn alpha_span(ck: ComputerKey) -> Option<(int, int, int)> {
    match ck {
        ComputerKey::Character(c, ComputerKeyLocation::Standard) => char_span(c@),
        ComputerKey::Named(n, loc) => named_span(n, loc),
        _ => None,
    }
}

/// The drum pads (positions in the numpad's row-major order) a numpad
/// character plays; "+" and "0" span two pads each.
pub open spec fn numpad_char_pads(c: Seq<char>) -> Seq<usize> {
    let i = index_of_str(NUMPAD_CHARS@, c, 0);
    if i == 0 { seq![1usize] } else if i == 1 { seq![2usize] } else if i == 2 { seq![3usize] }
    else if i == 3 { seq![4usize] } else if i == 4 { seq![5usize] } else if i == 5 { seq![6usize] }
    else if i == 6 { seq![7usize, 11usize] } else if i == 7 { seq![8usize] } else if i == 8 { seq![9usize] }
    else if i == 9 { seq![10usize] } else if i == 10 { seq![12usize] } else if i == 11 { seq![13usize] }
    else if i == 12 { seq![14usize] } else if i == 13 { seq![16usize, 17usize] }
    else if i == 14 || i == 15 { seq![18usize] } else { seq![] }
}

/// The board keys a computer key plays: a span of the alpha block, a key of
/// the navigation block or the arrows, or numpad pads.
pub open spec fn mapped_keys(keys: Seq<Key>, ck: ComputerKey) -> Seq<KeyId> {
    match alpha_span(ck) {
        Some((row, start, end)) => spec_key_range(keys, (6 * row) as u16, start, end),
        None => match ck {
            ComputerKey::Named(NamedKey::Insert, _) => spec_cluster_key(keys, Cluster::Nav, "Insert"@, 0),
            ComputerKey::Named(NamedKey::Home, _) => spec_cluster_key(keys, Cluster::Nav, "Home"@, 0),
            ComputerKey::Named(NamedKey::PageUp, _) => spec_cluster_key(keys, Cluster::Nav, "PgUp"@, 0),
            ComputerKey::Named(NamedKey::Delete, _) => spec_cluster_key(keys, Cluster::Nav, "Delete"@, 0),
            ComputerKey::Named(NamedKey::End, _) => spec_cluster_key(keys, Cluster::Nav, "End"@, 0),
            ComputerKey::Named(NamedKey::PageDown, _) => spec_cluster_key(keys, Cluster::Nav, "PgDn"@, 0),
            ComputerKey::Named(NamedKey::ArrowUp, _) => spec_cluster_key(keys, Cluster::Arrow, "↑"@, 0),
            ComputerKey::Named(NamedKey::ArrowLeft, _) => spec_cluster_key(keys, Cluster::Arrow, "←"@, 0),
            ComputerKey::Named(NamedKey::ArrowDown, _) => spec_cluster_key(keys, Cluster::Arrow, "↓"@, 0),
            ComputerKey::Named(NamedKey::ArrowRight, _) => spec_cluster_key(keys, Cluster::Arrow, "→"@, 0),
            ComputerKey::Named(NamedKey::NumLock, _) => spec_numpad_range(keys, seq![0usize]),
            ComputerKey::Named(NamedKey::Enter, ComputerKeyLocation::Numpad) => spec_numpad_range(keys, seq![15usize, 19usize]),
            ComputerKey::Character(c, ComputerKeyLocation::Numpad) => spec_numpad_range(keys, numpad_char_pads(c@)),
            _ => seq![],
        },
    }
}

fn named_span_of(n: NamedKey, loc: ComputerKeyLocation) -> (r: Option<(u16, usize, usize)>)
    ensures
        match r {
            Some((row, s, e)) => named_span(n, loc) == Some((row as int, s as int, e as int)),
            None => named_span(n, loc) is None,
        },
{
    match (n, loc) {
        (NamedKey::Backspace, ComputerKeyLocation::Standard) => Some((1, 13, 13)),
        (NamedKey::Tab, ComputerKeyLocation::Standard) => Some((2, 0, 1)),
        (NamedKey::CapsLock, ComputerKeyLocation::Standard) => Some((3, 0, 0)),
        (NamedKey::Enter, ComputerKeyLocation::Standard) => Some((3, 12, 13)),
        (NamedKey::Shift, ComputerKeyLocation::Left) => Some((4, 0, 1)),
        (NamedKey::Shift, ComputerKeyLocation::Right) => Some((4, 12, 14)),
        (NamedKey::Control, ComputerKeyLocation::Left) => Some((5, 0, 0)),
        (NamedKey::Fn, ComputerKeyLocation::Left) => Some((5, 1, 1)),
        (NamedKey::Meta, ComputerKeyLocation::Left) => Some((5, 1, 1)),
        (NamedKey::Super, ComputerKeyLocation::Left) => Some((5, 1, 1)),
        (NamedKey::Alt, ComputerKeyLocation::Left) => Some((5, 2, 2)),
        (NamedKey::Space, _) => Some((5, 3, 8)),
        (NamedKey::Alt, ComputerKeyLocation::Right) => Some((5, 9, 9)),
        (NamedKey::AltGraph, ComputerKeyLocation::Right) => Some((5, 9, 9)),
        (NamedKey::Meta, ComputerKeyLocation::Right) => Some((5, 10, 10)),
        (NamedKey::Super, ComputerKeyLocation::Right) => Some((5, 10, 10)),
        (NamedKey::Control, ComputerKeyLocation::Right) => Some((5, 11, 11)),
        _ => None,
    }
}

fn char_span_of(c: &str) -> (r: Option<(u16, usize, usize)>)
    ensures
        match r {
            Some((row, s, e)) => char_span(c@) == Some((row as int, s as int, e as int)),
            None => char_span(c@) is None,
        },
{
    let i1 = find_str(&ROW_1_CHARS, c);
    if i1 < 13 {
        return Some((1, i1, i1));
    }
    let i2 = find_str(&ROW_2_CHARS, c);
    if i2 < 13 {
        return Some((2, i2 + 2, i2 + 2));
    }
    let i3 = find_str(&ROW_3_CHARS, c);
    if i3 < 11 {
        return Some((3, i3 + 1, i3 + 1));
    }
    let i4 = find_str(&ROW_4_CHARS, c);
    if i4 < 10 {
        return Some((4, i4 + 2, i4 + 2));
    }
    None
}

fn numpad_pads_of(c: &str) -> (r: Vec<usize>)
    ensures
        r@ == numpad_char_pads(c@),
{
    let i = find_str(&NUMPAD_CHARS, c);
    let mut r: Vec<usize> = Vec::new();
    if i == 0 { r.push(1); } else if i == 1 { r.push(2); } else if i == 2 { r.push(3); }
    else if i == 3 { r.push(4); } else if i == 4 { r.push(5); } else if i == 5 { r.push(6); }
    else if i == 6 { r.push(7); r.push(11); } else if i == 7 { r.push(8); } else if i == 8 { r.push(9); }
    else if i == 9 { r.push(10); } else if i == 10 { r.push(12); } else if i == 11 { r.push(13); }
    else if i == 12 { r.push(14); } else if i == 13 { r.push(16); r.push(17); }
    else if i == 14 || i == 15 { r.push(18); }
    assert(r@ =~= numpad_char_pads(c@));
    r
}

/// The board keys a computer key plays.
pub fn mapped_computer_keys(keys: &[Key], computer_key: &ComputerKey) -> (r: Vec<KeyId>)
    ensures
        r@ == mapped_keys(keys@, *computer_key),
{
    let span = match computer_key {
        ComputerKey::Character(c, ComputerKeyLocation::Standard) => char_span_of(c.as_str()),
        ComputerKey::Named(n, loc) => named_span_of(*n, *loc),
        _ => None,
    };
    match span {
        Some((row, start, end)) => {
            return key_range(keys, 6 * row, start, end);
        },
        None => {},
    }
    match computer_key {
        ComputerKey::Named(NamedKey::Insert, _) => cluster_key(keys, Cluster::Nav, "Insert"),
        ComputerKey::Named(NamedKey::Home, _) => cluster_key(keys, Cluster::Nav, "Home"),
        ComputerKey::Named(NamedKey::PageUp, _) => cluster_key(keys, Cluster::Nav, "PgUp"),
        ComputerKey::Named(NamedKey::Delete, _) => cluster_key(keys, Cluster::Nav, "Delete"),
        ComputerKey::Named(NamedKey::End, _) => cluster_key(keys, Cluster::Nav, "End"),
        ComputerKey::Named(NamedKey::PageDown, _) => cluster_key(keys, Cluster::Nav, "PgDn"),
        ComputerKey::Named(NamedKey::ArrowUp, _) => cluster_key(keys, Cluster::Arrow, "↑"),
        ComputerKey::Named(NamedKey::ArrowLeft, _) => cluster_key(keys, Cluster::Arrow, "←"),
        ComputerKey::Named(NamedKey::ArrowDown, _) => cluster_key(keys, Cluster::Arrow, "↓"),
        ComputerKey::Named(NamedKey::ArrowRight, _) => cluster_key(keys, Cluster::Arrow, "→"),
        ComputerKey::Named(NamedKey::NumLock, _) => {
            let pads: Vec<usize> = vec![0];
            assert(pads@ =~= seq![0usize]);
            numpad_range(keys, pads.as_slice())
        },
        ComputerKey::Named(NamedKey::Enter, ComputerKeyLocation::Numpad) => {
            let pads: Vec<usize> = vec![15, 19];
            assert(pads@ =~= seq![15usize, 19usize]);
            numpad_range(keys, pads.as_slice())
        },
        ComputerKey::Character(c, ComputerKeyLocation::Numpad) => {
            let pads = numpad_pads_of(c.as_str());
            numpad_range(keys, pads.as_slice())
        },
        _ => Vec::new(),
    }
}

} // verus!

verus! {

/// Names of the computer keys as projected onto the board.
pub const ROW_1_LABELS: [&'static str; 14] = ["`", "1", "2", "3", "4", "5", "6", "7", "8", "9", "0", "-", "=", "BKSP"];
pub const ROW_2_LABELS: [&'static str; 13] = ["Q", "W", "E", "R", "T", "Y", "U", "I", "O", "P", "[", "]", "\\"];
pub const ROW_3_LABELS: [&'static str; 11] = ["A", "S", "D", "F", "G", "H", "J", "K", "L", ";", "'"];
pub const ROW_4_LABELS: [&'static str; 10] = ["Z", "X", "C", "V", "B", "N", "M", ",", ".", "/"];
pub const ROW_5_STARTS: [usize; 7] = [0, 1, 2, 3, 9, 10, 11];
pub const ROW_5_ENDS: [usize; 7] = [0, 1, 2, 8, 9, 10, 11];
pub const ROW_5_LABELS: [&'static str; 7] = ["CTRL", "META", "ALT", "SPACE", "ALT", "META", "CTRL"];
/// One computer key per drum pad, in the numpad's row-major order (0 and
/// Enter each span two pads).
pub const NUMPAD_LABELS: [&'static str; 20] = [
    "NUM", "/", "*", "-", "7", "8", "9", "+", "4", "5", "6", "+", "1", "2", "3", "ENTER", "0", "0", ".", "ENTER",
];

/// `m` with each of `ids` labelled `label`.
pub open spec fn insert_ids(m: Map<u32, Seq<char>>, ids: Seq<KeyId>, label: Seq<char>) -> Map<u32, Seq<char>>
    decreases ids.len(),
{
    if ids.len() == 0 {
        m
    } else {
        insert_ids(m, ids.drop_last(), label).insert(ids.last().0, label)
    }
}

/// `m` with keys `start` to `end` of alpha row `row` (1 to 5) labelled `label`.
pub open spec fn label_span(keys: Seq<Key>, m: Map<u32, Seq<char>>, row: int, start: int, end: int, label: Seq<char>) -> Map<u32, Seq<char>> {
    insert_ids(m, spec_key_range(keys, (6 * row) as u16, start, end), label)
}

/// `m` with key `offset + i` of row `row` labelled `labels[i]`, for each `i < n`.
pub open spec fn label_each(keys: Seq<Key>, m: Map<u32, Seq<char>>, row: int, labels: Seq<&'static str>, offset: int, n: int) -> Map<u32, Seq<char>>
    decreases n,
{
    if n <= 0 {
        m
    } else {
        let before = label_each(keys, m, row, labels, offset, n - 1);
        label_span(keys, before, row, offset + n - 1, offset + n - 1, labels[n - 1]@)
    }
}

pub open spec fn label_bottom_row(keys: Seq<Key>, m: Map<u32, Seq<char>>, n: int) -> Map<u32, Seq<char>>
    decreases n,
{
    if n <= 0 {
        m
    } else {
        let before = label_bottom_row(keys, m, n - 1);
        label_span(keys, before, 5, ROW_5_STARTS@[n - 1] as int, ROW_5_ENDS@[n - 1] as int, ROW_5_LABELS@[n - 1]@)
    }
}

pub open spec fn label_pads(m: Map<u32, Seq<char>>, sorted: Seq<Ranked>, n: int) -> Map<u32, Seq<char>>
    decreases n,
{
    if n <= 0 {
        m
    } else {
        label_pads(m, sorted, n - 1).insert(sorted[n - 1].id.0, NUMPAD_LABELS@[n - 1]@)
    }
}

/// The computer-key name shown on each board key (by key id): the alpha
/// block labelled as the computer rows that play it, later entries winning
/// where spans overlap, and the drum pads labelled with their numpad keys.
pub open spec fn projection_labels(keys: Seq<Key>) -> Map<u32, Seq<char>> {
    let sorted = stable_sort(ranked_numpad(keys));
    label_pads(alpha_block_labels(keys), sorted, if sorted.len() < 20 { sorted.len() as int } else { 20 })
}

/// The labels of the alpha block alone, before the drum pads are labelled.
pub open spec fn alpha_block_labels(keys: Seq<Key>) -> Map<u32, Seq<char>> {
    let m1 = label_each(keys, Map::empty(), 1, ROW_1_LABELS@, 0, 14);
    let m2 = label_span(keys, m1, 2, 0, 1, "TAB"@);
    let m3 = label_each(keys, m2, 2, ROW_2_LABELS@, 2, 13);
    let m4 = label_span(keys, m3, 3, 0, 0, "CAPS"@);
    let m5 = label_each(keys, m4, 3, ROW_3_LABELS@, 1, 11);
    let m6 = label_span(keys, m5, 3, 12, 13, "ENTER"@);
    let m7 = label_span(keys, m6, 4, 0, 1, "SHIFT"@);
    let m8 = label_each(keys, m7, 4, ROW_4_LABELS@, 2, 10);
    let m9 = label_span(keys, m8, 4, 12, 14, "SHIFT"@);
    label_bottom_row(keys, m9, 7)
}

/// The labels of a map of strings, as character sequences.
pub open spec fn text_map(m: Map<u32, String>) -> Map<u32, Seq<char>> {
    Map::new(|k: u32| m.contains_key(k), |k: u32| m[k]@)
}

fn label_ids(labels: &mut HashMap<u32, String>, ids: &Vec<KeyId>, label: &str)
    ensures
        text_map(final(labels)@) == insert_ids(text_map(old(labels)@), ids@, label@),
{
    broadcast use vstd::std_specs::hash::group_hash_axioms;

    let ghost start = text_map(labels@);
    let mut i: usize = 0;
    while i < ids.len()
        invariant
            0 <= i <= ids@.len(),
            text_map(labels@) == insert_ids(start, ids@.take(i as int), label@),
        decreases ids@.len() - i,
    {
        proof {
            assert(ids@.take(i + 1).drop_last() =~= ids@.take(i as int));
        }
        let ghost before = text_map(labels@);
        labels.insert(ids[i].0, String::from_str(label));
        assert(text_map(labels@) =~= before.insert(ids@[i as int].0, label@));
        i = i + 1;
    }
    assert(ids@.take(ids@.len() as int) =~= ids@);
}

fn label_run(keys: &[Key], labels: &mut HashMap<u32, String>, row: u16, names: &[&'static str], offset: usize)
    requires
        1 <= row <= 5,
        offset <= 2,
        names@.len() <= 14,
    ensures
        text_map(final(labels)@) == label_each(keys@, text_map(old(labels)@), row as int, names@, offset as int, names@.len() as int),
{
    let ghost start = text_map(labels@);
    let mut i: usize = 0;
    while i < names.len()
        invariant
            1 <= row <= 5,
            offset <= 2,
            names@.len() <= 14,
            0 <= i <= names@.len(),
            text_map(labels@) == label_each(keys@, start, row as int, names@, offset as int, i as int),
        decreases names@.len() - i,
    {
        let ids = key_range(keys, 6 * row, offset + i, offset + i);
        label_ids(labels, &ids, names[i]);
        i = i + 1;
    }
}

fn label_range(keys: &[Key], labels: &mut HashMap<u32, String>, row: u16, start: usize, end: usize, name: &str)
    requires
        1 <= row <= 5,
    ensures
        text_map(final(labels)@) == label_span(keys@, text_map(old(labels)@), row as int, start as int, end as int, name@),
{
    let ids = key_range(keys, 6 * row, start, end);
    label_ids(labels, &ids, name);
}

/// The computer-key name shown on each board key, keyed by key id.
pub fn computer_projection_labels(keys: &[Key]) -> (r: HashMap<u32, String>)
    ensures
        text_map(r@) == projection_labels(keys@),
{
    broadcast use vstd::std_specs::hash::group_hash_axioms;

    let mut labels: HashMap<u32, String> = HashMap::new();
    assert(text_map(labels@) =~= Map::<u32, Seq<char>>::empty());
    label_run(keys, &mut labels, 1, &ROW_1_LABELS, 0);
    label_range(keys, &mut labels, 2, 0, 1, "TAB");
    label_run(keys, &mut labels, 2, &ROW_2_LABELS, 2);
    label_range(keys, &mut labels, 3, 0, 0, "CAPS");
    label_run(keys, &mut labels, 3, &ROW_3_LABELS, 1);
    label_range(keys, &mut labels, 3, 12, 13, "ENTER");
    label_range(keys, &mut labels, 4, 0, 1, "SHIFT");
    label_run(keys, &mut labels, 4, &ROW_4_LABELS, 2);
    label_range(keys, &mut labels, 4, 12, 14, "SHIFT");

    let ghost m9 = text_map(labels@);
    let mut j: usize = 0;
    while j < 7
        invariant
            0 <= j <= 7,
            text_map(labels@) == label_bottom_row(keys@, m9, j as int),
        decreases 7 - j,
    {
        label_range(keys, &mut labels, 5, ROW_5_STARTS[j], ROW_5_ENDS[j], ROW_5_LABELS[j]);
        j = j + 1;
    }

    let sorted = sort_by_tick(collect_numpad(keys).as_slice());
    let ghost m10 = text_map(labels@);
    let count = if sorted.len() < 20 { sorted.len() } else { 20 };
    let mut k: usize = 0;
    while k < count
        invariant
            0 <= k <= count,
            count <= 20,
            count <= sorted@.len(),
            sorted@ == stable_sort(ranked_numpad(keys@)),
            text_map(labels@) == label_pads(m10, sorted@, k as int),
        decreases count - k,
    {
        let ghost before = text_map(labels@);
        labels.insert(sorted[k].id.0, String::from_str(NUMPAD_LABELS[k]));
        assert(text_map(labels@) =~= before.insert(sorted@[k as int].id.0, NUMPAD_LABELS@[k as int]@));
        k = k + 1;
    }
    labels
}

} // verus!

verus! {

/// Arrow Up and Arrow Down transpose the notes played by hand an octave.
#[derive(Debug, Clone, Copy, PartialEq, Eq, Structural)]
pub enum OctaveShortcut {
    Up,
    Down,
}

/// The octave shortcut a key press is, if any. A held key repeating counts
/// once, so it steps a single octave.
pub fn octave_shortcut(key: &RawKey, repeat: bool) -> (r: Option<OctaveShortcut>)
    ensures
        r == if repeat {
            None
        } else {
            match key {
                RawKey::Named(NamedKey::ArrowUp) => Some(OctaveShortcut::Up),
                RawKey::Named(NamedKey::ArrowDown) => Some(OctaveShortcut::Down),
                _ => None,
            }
        },
{
    if repeat {
        return None;
    }
    match key {
        RawKey::Named(NamedKey::ArrowUp) => Some(OctaveShortcut::Up),
        RawKey::Named(NamedKey::ArrowDown) => Some(OctaveShortcut::Down),
        _ => None,
    }
}

/// The live transpose after an octave shortcut, saturating at the ends of
/// its range.
pub fn shifted_live_octave(live_octave: i8, shortcut: OctaveShortcut) -> (r: i8)
    ensures
        r == match shortcut {
            OctaveShortcut::Up => if live_octave + 12 > 127 { 127i8 } else { (live_octave + 12) as i8 },
            OctaveShortcut::Down => if live_octave - 12 < -128 { -128i8 } else { (live_octave - 12) as i8 },
        },
{
    match shortcut {
        OctaveShortcut::Up => if live_octave > 115 { 127 } else { live_octave + 12 },
        OctaveShortcut::Down => if live_octave < -116 { -128 } else { live_octave - 12 },
    }
}

} // verus!

verus! {

/// Taking a character off Shift twice is the same as once: the symbols a
/// shifted character becomes are not shifted characters themselves. So a
/// key pressed with Shift and released without it normalizes to one key.
pub proof fn lemma_unshifted_idempotent(s: Seq<char>)
    ensures
        unshifted(unshifted(s)) == unshifted(s),
{
    lemma_index_of_str(SHIFTED_SYMBOLS@, s, 0);
    let i = index_of_str(SHIFTED_SYMBOLS@, s, 0);
    if i < 21 {
        let base = UNSHIFTED_SYMBOLS@[i]@;
        lemma_index_of_str(SHIFTED_SYMBOLS@, base, 0);
        let j = index_of_str(SHIFTED_SYMBOLS@, base, 0);
        if j < 21 {
            reveal_strlit("~"); reveal_strlit("!"); reveal_strlit("@"); reveal_strlit("#");
            reveal_strlit("$"); reveal_strlit("%"); reveal_strlit("^"); reveal_strlit("&");
            reveal_strlit("*"); reveal_strlit("("); reveal_strlit(")"); reveal_strlit("_");
            reveal_strlit("+"); reveal_strlit("{"); reveal_strlit("}"); reveal_strlit("|");
            reveal_strlit(":"); reveal_strlit("\""); reveal_strlit("<"); reveal_strlit(">");
            reveal_strlit("?");
            reveal_strlit("`"); reveal_strlit("1"); reveal_strlit("2"); reveal_strlit("3");
            reveal_strlit("4"); reveal_strlit("5"); reveal_strlit("6"); reveal_strlit("7");
            reveal_strlit("8"); reveal_strlit("9"); reveal_strlit("0"); reveal_strlit("-");
            reveal_strlit("="); reveal_strlit("["); reveal_strlit("]"); reveal_strlit("\\");
            reveal_strlit(";"); reveal_strlit("'"); reveal_strlit(","); reveal_strlit(".");
            reveal_strlit("/");
            assert(SHIFTED_SYMBOLS@[j]@ == base);
            assert(SHIFTED_SYMBOLS@[j]@[0] == base[0]);
            assert(false);
        }
    }
}

} // verus!

verus! {

use crate::highlight::unique_ids;
use crate::sort::lemma_stable_sort_props;

/// The alpha keys of board row `r` (1 to 5), in the order a computer row
/// plays them: left to right.
pub open spec fn sorted_row(keys: Seq<Key>, r: int) -> Seq<Ranked> {
    stable_sort(ranked_row(keys, (6 * r) as u16))
}

/// The name a computer key carries on the projection of the computer
/// keyboard onto the board: a character key its character as printed on the
/// keycap (the numpad's decimal comma shows as "."), a named key its short
/// name. The navigation keys and the arrows are not projected.
pub open spec fn projected_name(ck: ComputerKey) -> Option<Seq<char>> {
    match ck {
        ComputerKey::Character(c, ComputerKeyLocation::Standard) => {
            let i1 = index_of_str(ROW_1_CHARS@, c@, 0);
            let i2 = index_of_str(ROW_2_CHARS@, c@, 0);
            let i3 = index_of_str(ROW_3_CHARS@, c@, 0);
            let i4 = index_of_str(ROW_4_CHARS@, c@, 0);
            if i1 < 13 {
                Some(ROW_1_LABELS@[i1]@)
            } else if i2 < 13 {
                Some(ROW_2_LABELS@[i2]@)
            } else if i3 < 11 {
                Some(ROW_3_LABELS@[i3]@)
            } else if i4 < 10 {
                Some(ROW_4_LABELS@[i4]@)
            } else {
                None
            }
        },
        ComputerKey::Named(n, loc) => match (n, loc) {
            (NamedKey::Backspace, ComputerKeyLocation::Standard) => Some("BKSP"@),
            (NamedKey::Tab, ComputerKeyLocation::Standard) => Some("TAB"@),
            (NamedKey::CapsLock, ComputerKeyLocation::Standard) => Some("CAPS"@),
            (NamedKey::Enter, ComputerKeyLocation::Standard) => Some("ENTER"@),
            (NamedKey::Shift, ComputerKeyLocation::Left) => Some("SHIFT"@),
            (NamedKey::Shift, ComputerKeyLocation::Right) => Some("SHIFT"@),
            (NamedKey::Control, ComputerKeyLocation::Left) => Some("CTRL"@),
            (NamedKey::Control, ComputerKeyLocation::Right) => Some("CTRL"@),
            (NamedKey::Fn, ComputerKeyLocation::Left) => Some("META"@),
            (NamedKey::Meta, ComputerKeyLocation::Left) => Some("META"@),
            (NamedKey::Meta, ComputerKeyLocation::Right) => Some("META"@),
            (NamedKey::Super, ComputerKeyLocation::Left) => Some("META"@),
            (NamedKey::Super, ComputerKeyLocation::Right) => Some("META"@),
            (NamedKey::Alt, ComputerKeyLocation::Left) => Some("ALT"@),
            (NamedKey::Alt, ComputerKeyLocation::Right) => Some("ALT"@),
            (NamedKey::AltGraph, ComputerKeyLocation::Right) => Some("ALT"@),
            (NamedKey::Space, _) => Some("SPACE"@),
            (NamedKey::Enter, ComputerKeyLocation::Numpad) => Some("ENTER"@),
            (NamedKey::NumLock, _) => Some("NUM"@),
            _ => None,
        },
        ComputerKey::Character(c, ComputerKeyLocation::Numpad) => {
            let i = index_of_str(NUMPAD_CHARS@, c@, 0);
            if i < 15 {
                Some(NUMPAD_CHARS@[i]@)
            } else if i == 15 {
                Some("."@)
            } else {
                None
            }
        },
        _ => None,
    }
}

/// Ids of `s` are pairwise different.
spec fn distinct_ids(s: Seq<Ranked>) -> bool {
    forall|i: int, j: int| 0 <= i < j < s.len() ==> s[i].id != s[j].id
}

/// `id` is the id of an alpha key of `keys` on row `row`.
spec fn from_alpha_row(keys: Seq<Key>, row: u16, id: KeyId) -> bool {
    exists|k: int| #![trigger keys[k]] 0 <= k < keys.len() && keys[k].id == id && is_alpha(keys[k].cluster) && keys[k].row == row
}

/// `id` is the id of a numpad key of `keys`.
spec fn from_numpad(keys: Seq<Key>, id: KeyId) -> bool {
    exists|k: int| #![trigger keys[k]] 0 <= k < keys.len() && keys[k].id == id && keys[k].cluster == Cluster::Numpad
}

proof fn lemma_ranked_row_ids(keys: Seq<Key>, row: u16)
    requires
        unique_ids(keys),
    ensures
        distinct_ids(ranked_row(keys, row)),
        forall|i: int| 0 <= i < ranked_row(keys, row).len() ==> from_alpha_row(keys, row, #[trigger] ranked_row(keys, row)[i].id),
    decreases keys.len(),
{
    if keys.len() > 0 {
        let dl = keys.drop_last();
        assert(unique_ids(dl)) by {
            assert forall|i: int, j: int| 0 <= i < j < dl.len() implies dl[i].id != dl[j].id by {
                assert(dl[i] == keys[i] && dl[j] == keys[j]);
            }
        }
        lemma_ranked_row_ids(dl, row);
        let rest = ranked_row(dl, row);
        let rr = ranked_row(keys, row);
        let last = keys.len() - 1;
        assert forall|i: int| 0 <= i < rest.len() implies from_alpha_row(keys, row, #[trigger] rest[i].id)
            && rest[i].id != keys[last].id by {
            let k = choose|k: int| #![trigger dl[k]] 0 <= k < dl.len() && dl[k].id == rest[i].id && is_alpha(dl[k].cluster) && dl[k].row == row;
            assert(keys[k] == dl[k]);
        }
        assert forall|i: int| 0 <= i < rr.len() implies from_alpha_row(keys, row, #[trigger] rr[i].id) by {
            if i < rest.len() {
                assert(rr[i] == rest[i]);
            } else {
                assert(keys[last].id == rr[i].id);
            }
        }
    }
}

proof fn lemma_ranked_numpad_ids(keys: Seq<Key>)
    requires
        unique_ids(keys),
    ensures
        distinct_ids(ranked_numpad(keys)),
        forall|i: int| 0 <= i < ranked_numpad(keys).len() ==> from_numpad(keys, #[trigger] ranked_numpad(keys)[i].id),
    decreases keys.len(),
{
    if keys.len() > 0 {
        let dl = keys.drop_last();
        assert(unique_ids(dl)) by {
            assert forall|i: int, j: int| 0 <= i < j < dl.len() implies dl[i].id != dl[j].id by {
                assert(dl[i] == keys[i] && dl[j] == keys[j]);
            }
        }
        lemma_ranked_numpad_ids(dl);
        let rest = ranked_numpad(dl);
        let rr = ranked_numpad(keys);
        let last = keys.len() - 1;
        assert forall|i: int| 0 <= i < rest.len() implies from_numpad(keys, #[trigger] rest[i].id)
            && rest[i].id != keys[last].id by {
            let k = choose|k: int| #![trigger dl[k]] 0 <= k < dl.len() && dl[k].id == rest[i].id && dl[k].cluster == Cluster::Numpad;
            assert(keys[k] == dl[k]);
        }
        assert forall|i: int| 0 <= i < rr.len() implies from_numpad(keys, #[trigger] rr[i].id) by {
            if i < rest.len() {
                assert(rr[i] == rest[i]);
            } else {
                assert(keys[last].id == rr[i].id);
            }
        }
    }
}

/// Sorting keeps the entries and their distinct ids.
proof fn lemma_sorted_ids(s: Seq<Ranked>)
    requires
        distinct_ids(s),
    ensures
        distinct_ids(stable_sort(s)),
        stable_sort(s).len() == s.len(),
        forall|i: int| 0 <= i < stable_sort(s).len() ==> s.contains(#[trigger] stable_sort(s)[i]),
{
    broadcast use vstd::seq_lib::group_to_multiset_ensures;

    lemma_stable_sort_props(s);
    let t = stable_sort(s);
    assert(s.no_duplicates()) by {
        assert forall|i: int, j: int| 0 <= i < s.len() && 0 <= j < s.len() && i != j implies s[i] != s[j] by {
            if i < j {
                assert(s[i].id != s[j].id);
            } else {
                assert(s[j].id != s[i].id);
            }
        }
    }
    s.lemma_multiset_has_no_duplicates();
    assert forall|x: Ranked| t.to_multiset().contains(x) implies t.to_multiset().count(x) == 1 by {
        assert(s.to_multiset().contains(x));
    }
    t.lemma_multiset_has_no_duplicates_conv();
    assert forall|i: int| 0 <= i < t.len() implies s.contains(#[trigger] t[i]) by {
        assert(t.contains(t[i]));
        assert(t.to_multiset().count(t[i]) > 0);
    }
    assert forall|i: int, j: int| 0 <= i < j < t.len() implies t[i].id != t[j].id by {
        assert(s.contains(t[i]));
        assert(s.contains(t[j]));
        let a = choose|a: int| 0 <= a < s.len() && s[a] == t[i];
        let b = choose|b: int| 0 <= b < s.len() && s[b] == t[j];
        if t[i].id == t[j].id {
            if a < b {
                assert(s[a].id != s[b].id);
            } else if b < a {
                assert(s[b].id != s[a].id);
            }
            assert(t[i] == t[j]);
        }
    }
}

proof fn lemma_sorted_row_ids(keys: Seq<Key>, r: int)
    requires
        unique_ids(keys),
    ensures
        distinct_ids(sorted_row(keys, r)),
        forall|i: int| 0 <= i < sorted_row(keys, r).len() ==> from_alpha_row(keys, (6 * r) as u16, #[trigger] sorted_row(keys, r)[i].id),
{
    let row = (6 * r) as u16;
    lemma_ranked_row_ids(keys, row);
    lemma_sorted_ids(ranked_row(keys, row));
    let rr = ranked_row(keys, row);
    assert forall|i: int| 0 <= i < sorted_row(keys, r).len() implies from_alpha_row(keys, row, #[trigger] sorted_row(keys, r)[i].id) by {
        let t = sorted_row(keys, r);
        assert(rr.contains(t[i]));
        let a = choose|a: int| 0 <= a < rr.len() && rr[a] == t[i];
        assert(from_alpha_row(keys, row, rr[a].id));
    }
}

proof fn lemma_sorted_numpad_ids(keys: Seq<Key>)
    requires
        unique_ids(keys),
    ensures
        distinct_ids(stable_sort(ranked_numpad(keys))),
        forall|i: int| 0 <= i < stable_sort(ranked_numpad(keys)).len() ==> from_numpad(keys, #[trigger] stable_sort(ranked_numpad(keys))[i].id),
{
    lemma_ranked_numpad_ids(keys);
    lemma_sorted_ids(ranked_numpad(keys));
    let rr = ranked_numpad(keys);
    assert forall|i: int| 0 <= i < stable_sort(rr).len() implies from_numpad(keys, #[trigger] stable_sort(rr)[i].id) by {
        let t = stable_sort(rr);
        assert(rr.contains(t[i]));
        let a = choose|a: int| 0 <= a < rr.len() && rr[a] == t[i];
        assert(from_numpad(keys, rr[a].id));
    }
}

proof fn lemma_insert_ids_hit(m: Map<u32, Seq<char>>, ids: Seq<KeyId>, label: Seq<char>, j: int)
    requires
        0 <= j < ids.len(),
    ensures
        insert_ids(m, ids, label).contains_key(ids[j].0),
        insert_ids(m, ids, label)[ids[j].0] == label,
    decreases ids.len(),
{
    if j < ids.len() - 1 {
        lemma_insert_ids_hit(m, ids.drop_last(), label, j);
    }
}

proof fn lemma_insert_ids_miss(m: Map<u32, Seq<char>>, ids: Seq<KeyId>, label: Seq<char>, x: u32)
    requires
        forall|j: int| 0 <= j < ids.len() ==> #[trigger] ids[j].0 != x,
    ensures
        insert_ids(m, ids, label).contains_key(x) == m.contains_key(x),
        insert_ids(m, ids, label)[x] == m[x],
    decreases ids.len(),
{
    if ids.len() > 0 {
        assert(ids.last().0 != x);
        lemma_insert_ids_miss(m, ids.drop_last(), label, x);
    }
}

/// Labelling a span of a row reaches the key at position `p` of row `r`
/// exactly when the span is on that row, covers `p` and fits in the row.
proof fn lemma_label_span_at(keys: Seq<Key>, m: Map<u32, Seq<char>>, r: int, p: int, row2: int, start: int, end: int, lab: Seq<char>)
    requires
        unique_ids(keys),
        1 <= r <= 5,
        1 <= row2 <= 5,
        0 <= p < sorted_row(keys, r).len(),
    ensures
        ({
            let x = sorted_row(keys, r)[p].id.0;
            let res = label_span(keys, m, row2, start, end, lab);
            if row2 == r && 0 <= start <= p <= end && end < sorted_row(keys, r).len() {
                res.contains_key(x) && res[x] == lab
            } else {
                res.contains_key(x) == m.contains_key(x) && res[x] == m[x]
            }
        }),
{
    let sr = sorted_row(keys, r);
    let sr2 = sorted_row(keys, row2);
    let ids = spec_key_range(keys, (6 * row2) as u16, start, end);
    let x = sr[p].id.0;
    if 0 <= start && start <= end + 1 && end < sr2.len() {
        let sub = sr2.subrange(start, end + 1);
        assert(ids == ids_of(sub));
        assert forall|j: int| 0 <= j < ids.len() implies #[trigger] ids[j] == sr2[start + j].id by {
            assert(ids_of(sub)[j] == sub[j].id);
        }
    } else {
        assert(ids.len() == 0);
    }
    if row2 == r && 0 <= start && start <= p && p <= end && end < sr.len() {

        assert(ids[p - start] == sr[p].id);
        lemma_insert_ids_hit(m, ids, lab, p - start);
    } else {
        lemma_sorted_row_ids(keys, r);
        lemma_sorted_row_ids(keys, row2);
        assert forall|j: int| 0 <= j < ids.len() implies #[trigger] ids[j].0 != x by {
            assert(ids[j] == sr2[start + j].id);
            if row2 == r {
                assert(start + j != p);
                if start + j < p {
                    assert(sr[start + j].id != sr[p].id);
                } else {
                    assert(sr[p].id != sr[start + j].id);
                }
            } else {
                assert(from_alpha_row(keys, (6 * r) as u16, sr[p].id));
                assert(from_alpha_row(keys, (6 * row2) as u16, sr2[start + j].id));
                let k1 = choose|k: int| #![trigger keys[k]] 0 <= k < keys.len() && keys[k].id == sr[p].id && is_alpha(keys[k].cluster) && keys[k].row == (6 * r) as u16;
                let k2 = choose|k: int| #![trigger keys[k]] 0 <= k < keys.len() && keys[k].id == sr2[start + j].id && is_alpha(keys[k].cluster) && keys[k].row == (6 * row2) as u16;
                if ids[j].0 == x {
                    if k1 < k2 {
                        assert(keys[k1].id != keys[k2].id);
                    } else if k2 < k1 {
                        assert(keys[k2].id != keys[k1].id);
                    }
                }
            }
        }
        lemma_insert_ids_miss(m, ids, lab, x);
    }
}

proof fn lemma_label_each_at(
    keys: Seq<Key>,
    m: Map<u32, Seq<char>>,
    r: int,
    p: int,
    row2: int,
    labels: Seq<&'static str>,
    offset: int,
    n: int,
)
    requires
        unique_ids(keys),
        1 <= r <= 5,
        1 <= row2 <= 5,
        0 <= p < sorted_row(keys, r).len(),
    ensures
        ({
            let x = sorted_row(keys, r)[p].id.0;
            let res = label_each(keys, m, row2, labels, offset, n);
            if row2 == r && offset <= p < offset + n {
                res.contains_key(x) && res[x] == labels[p - offset]@
            } else {
                res.contains_key(x) == m.contains_key(x) && res[x] == m[x]
            }
        }),
    decreases n,
{
    if n > 0 {
        lemma_label_each_at(keys, m, r, p, row2, labels, offset, n - 1);
        let before = label_each(keys, m, row2, labels, offset, n - 1);
        lemma_label_span_at(keys, before, r, p, row2, offset + n - 1, offset + n - 1, labels[n - 1]@);
    }
}

proof fn lemma_label_pads_miss(m: Map<u32, Seq<char>>, sorted: Seq<Ranked>, n: int, x: u32)
    requires
        n <= sorted.len(),
        forall|i: int| 0 <= i < sorted.len() ==> #[trigger] sorted[i].id.0 != x,
    ensures
        label_pads(m, sorted, n).contains_key(x) == m.contains_key(x),
        label_pads(m, sorted, n)[x] == m[x],
    decreases n,
{
    if n > 0 {
        assert(sorted[n - 1].id.0 != x);
        lemma_label_pads_miss(m, sorted, n - 1, x);
    }
}

proof fn lemma_label_pads_hit(m: Map<u32, Seq<char>>, sorted: Seq<Ranked>, n: int, q: int)
    requires
        distinct_ids(sorted),
        0 <= q < n <= sorted.len(),
    ensures
        label_pads(m, sorted, n).contains_key(sorted[q].id.0),
        label_pads(m, sorted, n)[sorted[q].id.0] == NUMPAD_LABELS@[q]@,
    decreases n,
{
    if q < n - 1 {
        assert(sorted[q].id != sorted[n - 1].id);
        lemma_label_pads_hit(m, sorted, n - 1, q);
    }
}

/// Each key a list of pads plays is the pad at one of the listed positions.
proof fn lemma_numpad_range_entries(keys: Seq<Key>, indices: Seq<usize>)
    ensures
        forall|j: int| 0 <= j < spec_numpad_range(keys, indices).len() ==> exists|k: int|
            0 <= k < indices.len() && indices[k] < stable_sort(ranked_numpad(keys)).len()
                && #[trigger] spec_numpad_range(keys, indices)[j] == stable_sort(ranked_numpad(keys))[indices[k] as int].id,
    decreases indices.len(),
{
    if indices.len() > 0 {
        let dl = indices.drop_last();
        lemma_numpad_range_entries(keys, dl);
        let rest = spec_numpad_range(keys, dl);
        let all = spec_numpad_range(keys, indices);
        assert forall|j: int| 0 <= j < all.len() implies exists|k: int|
            0 <= k < indices.len() && indices[k] < stable_sort(ranked_numpad(keys)).len()
                && #[trigger] all[j] == stable_sort(ranked_numpad(keys))[indices[k] as int].id by {
            if j < rest.len() {
                assert(all[j] == rest[j]);
                let k = choose|k: int| 0 <= k < dl.len() && dl[k] < stable_sort(ranked_numpad(keys)).len()
                    && #[trigger] rest[j] == stable_sort(ranked_numpad(keys))[dl[k] as int].id;
                assert(indices[k] == dl[k]);
            } else {
                assert(indices[indices.len() - 1] == indices.last());
            }
        }
    }
}

/// The projected label of position `p` of alpha row `r`, when the row has
/// `len` keys.
spec fn alpha_label(r: int, p: int, len: int) -> Option<Seq<char>> {
    if r == 1 {
        if 0 <= p < 14 { Some(ROW_1_LABELS@[p]@) } else { None }
    } else if r == 2 {
        if 0 <= p <= 1 && 1 < len { Some("TAB"@) } else if 2 <= p < 15 { Some(ROW_2_LABELS@[p - 2]@) } else { None }
    } else if r == 3 {
        if p == 0 { Some("CAPS"@) } else if 1 <= p < 12 { Some(ROW_3_LABELS@[p - 1]@) } else if 12 <= p <= 13 && 13 < len { Some("ENTER"@) } else { None }
    } else if r == 4 {
        if 0 <= p <= 1 && 1 < len { Some("SHIFT"@) } else if 2 <= p < 12 { Some(ROW_4_LABELS@[p - 2]@) } else if 12 <= p <= 14 && 14 < len { Some("SHIFT"@) } else { None }
    } else if r == 5 {
        if p == 0 { Some(ROW_5_LABELS@[0]@) } else if p == 1 { Some(ROW_5_LABELS@[1]@) } else if p == 2 { Some(ROW_5_LABELS@[2]@) }
        else if 3 <= p <= 8 && 8 < len { Some(ROW_5_LABELS@[3]@) } else if p == 9 { Some(ROW_5_LABELS@[4]@) }
        else if p == 10 { Some(ROW_5_LABELS@[5]@) } else if p == 11 { Some(ROW_5_LABELS@[6]@) } else { None }
    } else {
        None
    }
}

#[verifier::rlimit(50)]
proof fn lemma_alpha_key_projected_label(keys: Seq<Key>, r: int, p: int)
    requires
        unique_ids(keys),
        1 <= r <= 5,
        0 <= p < sorted_row(keys, r).len(),
    ensures
        alpha_label(r, p, sorted_row(keys, r).len() as int) matches Some(l) ==> {
            &&& projection_labels(keys).contains_key(sorted_row(keys, r)[p].id.0)
            &&& projection_labels(keys)[sorted_row(keys, r)[p].id.0] == l
        },
{
    let x = sorted_row(keys, r)[p].id.0;
    let m1 = label_each(keys, Map::empty(), 1, ROW_1_LABELS@, 0, 14);
    let m2 = label_span(keys, m1, 2, 0, 1, "TAB"@);
    let m3 = label_each(keys, m2, 2, ROW_2_LABELS@, 2, 13);
    let m4 = label_span(keys, m3, 3, 0, 0, "CAPS"@);
    let m5 = label_each(keys, m4, 3, ROW_3_LABELS@, 1, 11);
    let m6 = label_span(keys, m5, 3, 12, 13, "ENTER"@);
    let m7 = label_span(keys, m6, 4, 0, 1, "SHIFT"@);
    let m8 = label_each(keys, m7, 4, ROW_4_LABELS@, 2, 10);
    let m9 = label_span(keys, m8, 4, 12, 14, "SHIFT"@);
    lemma_label_each_at(keys, Map::empty(), r, p, 1, ROW_1_LABELS@, 0, 14);
    lemma_label_span_at(keys, m1, r, p, 2, 0, 1, "TAB"@);
    lemma_label_each_at(keys, m2, r, p, 2, ROW_2_LABELS@, 2, 13);
    lemma_label_span_at(keys, m3, r, p, 3, 0, 0, "CAPS"@);
    lemma_label_each_at(keys, m4, r, p, 3, ROW_3_LABELS@, 1, 11);
    lemma_label_span_at(keys, m5, r, p, 3, 12, 13, "ENTER"@);
    lemma_label_span_at(keys, m6, r, p, 4, 0, 1, "SHIFT"@);
    lemma_label_each_at(keys, m7, r, p, 4, ROW_4_LABELS@, 2, 10);
    lemma_label_span_at(keys, m8, r, p, 4, 12, 14, "SHIFT"@);
    let b0 = label_bottom_row(keys, m9, 0);
    let b1 = label_bottom_row(keys, m9, 1);
    let b2 = label_bottom_row(keys, m9, 2);
    let b3 = label_bottom_row(keys, m9, 3);
    let b4 = label_bottom_row(keys, m9, 4);
    let b5 = label_bottom_row(keys, m9, 5);
    let b6 = label_bottom_row(keys, m9, 6);
    let m10 = label_bottom_row(keys, m9, 7);
    lemma_label_span_at(keys, b0, r, p, 5, 0, 0, ROW_5_LABELS@[0]@);
    lemma_label_span_at(keys, b1, r, p, 5, 1, 1, ROW_5_LABELS@[1]@);
    lemma_label_span_at(keys, b2, r, p, 5, 2, 2, ROW_5_LABELS@[2]@);
    lemma_label_span_at(keys, b3, r, p, 5, 3, 8, ROW_5_LABELS@[3]@);
    lemma_label_span_at(keys, b4, r, p, 5, 9, 9, ROW_5_LABELS@[4]@);
    lemma_label_span_at(keys, b5, r, p, 5, 10, 10, ROW_5_LABELS@[5]@);
    lemma_label_span_at(keys, b6, r, p, 5, 11, 11, ROW_5_LABELS@[6]@);
    let sorted = stable_sort(ranked_numpad(keys));
    let n = if sorted.len() < 20 { sorted.len() as int } else { 20 };
    lemma_sorted_row_ids(keys, r);
    lemma_sorted_numpad_ids(keys);
    assert forall|i: int| 0 <= i < sorted.len() implies #[trigger] sorted[i].id.0 != x by {
        assert(from_numpad(keys, sorted[i].id));
        assert(from_alpha_row(keys, (6 * r) as u16, sorted_row(keys, r)[p].id));
        let k1 = choose|k: int| #![trigger keys[k]] 0 <= k < keys.len() && keys[k].id == sorted[i].id && keys[k].cluster == Cluster::Numpad;
        let k2 = choose|k: int| #![trigger keys[k]] 0 <= k < keys.len() && keys[k].id == sorted_row(keys, r)[p].id && is_alpha(keys[k].cluster) && keys[k].row == (6 * r) as u16;
        if sorted[i].id.0 == x {
            if k1 < k2 {
                assert(keys[k1].id != keys[k2].id);
            } else if k2 < k1 {
                assert(keys[k2].id != keys[k1].id);
            }
        }
    }
    lemma_label_pads_miss(m10, sorted, n, x);
}

/// A computer key plays only board keys that the projection of the computer
/// keyboard labels with that key's own name: Backspace plays the key shown as
/// "BKSP", Q the key shown as "Q", either Shift a key shown as "SHIFT", the
/// numpad's 7 the pad shown as "7", and so on. (Board keys with distinct ids.)
pub proof fn lemma_computer_keys_play_their_projected_name(keys: Seq<Key>, ck: ComputerKey, j: int)
    requires
        unique_ids(keys),
        projected_name(ck) is Some,
        0 <= j < mapped_keys(keys, ck).len(),
    ensures
        projection_labels(keys).contains_key(mapped_keys(keys, ck)[j].0),
        projection_labels(keys)[mapped_keys(keys, ck)[j].0] == projected_name(ck)->0,
{
    let mapped = mapped_keys(keys, ck);
    match ck {
        ComputerKey::Character(c, _) => {
            lemma_index_of_str(ROW_1_CHARS@, c@, 0);
            lemma_index_of_str(ROW_2_CHARS@, c@, 0);
            lemma_index_of_str(ROW_3_CHARS@, c@, 0);
            lemma_index_of_str(ROW_4_CHARS@, c@, 0);
            lemma_index_of_str(NUMPAD_CHARS@, c@, 0);
        },
        ComputerKey::Named(_, _) => {},
    }
    if alpha_span(ck) is Some {
        let (r, s, e) = alpha_span(ck)->0;
        let sr = sorted_row(keys, r);
        assert(mapped == spec_key_range(keys, (6 * r) as u16, s, e));
        let p = s + j;
        assert(mapped[j] == sr[p].id);
        assert(1 <= r <= 5);
        lemma_alpha_key_projected_label(keys, r, p);
        assert(alpha_label(r, p, sr.len() as int) == projected_name(ck));
    } else {
        lemma_numpad_key_projected_label(keys, ck, j);
    }
}

/// The numpad half of the law above.
#[verifier::rlimit(50)]
proof fn lemma_numpad_key_projected_label(keys: Seq<Key>, ck: ComputerKey, j: int)
    requires
        unique_ids(keys),
        projected_name(ck) is Some,
        alpha_span(ck) is None,
        0 <= j < mapped_keys(keys, ck).len(),
    ensures
        projection_labels(keys).contains_key(mapped_keys(keys, ck)[j].0),
        projection_labels(keys)[mapped_keys(keys, ck)[j].0] == projected_name(ck)->0,
{
    let mapped = mapped_keys(keys, ck);
    let sorted = stable_sort(ranked_numpad(keys));
    let indices: Seq<usize> = match ck {
        ComputerKey::Named(NamedKey::NumLock, _) => seq![0usize],
        ComputerKey::Named(NamedKey::Enter, ComputerKeyLocation::Numpad) => seq![15usize, 19usize],
        ComputerKey::Character(c, _) => numpad_char_pads(c@),
        _ => seq![],
    };
    match ck {
        ComputerKey::Character(c, _) => {
            lemma_index_of_str(NUMPAD_CHARS@, c@, 0);
        },
        ComputerKey::Named(_, _) => {},
    }
    assert(mapped == spec_numpad_range(keys, indices));
    lemma_numpad_range_entries(keys, indices);
    let k = choose|k: int| 0 <= k < indices.len() && indices[k] < sorted.len() && #[trigger] mapped[j] == sorted[indices[k] as int].id;
    let q = indices[k] as int;
    let n = if sorted.len() < 20 { sorted.len() as int } else { 20 };
    assert(q < 20);
    lemma_sorted_numpad_ids(keys);
    lemma_label_pads_hit(alpha_block_labels(keys), sorted, n, q);
    assert(NUMPAD_LABELS@[q]@ == projected_name(ck)->0);
}

} // verus!
