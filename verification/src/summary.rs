//! The text that sums up the notes under a staff selection.
use vstd::prelude::*;
use crate::highlight::track_is_muted;
use crate::midi::{Note, TrackInfo};
use crate::sort::{sort_by_tick, stable_sort, TickOrdered};
use crate::staff::{note_name, pitch_class_name};
use crate::text::{append_decimal, decimal, signed_decimal};

verus! {

/// A note ordered by its track.
#[derive(Debug, Clone, Copy)]
pub struct ByTrack(pub Note);

impl TickOrdered for ByTrack {
    open spec fn sort_key(&self) -> u64 {
        self.0.track as u64
    }

    fn key(&self) -> (k: u64) {
        self.0.track as u64
    }
}

/// The note sounds during the selection and its track is not muted.
pub open spec fn in_selection(n: Note, start: u64, end: u64, track_muted: Seq<bool>) -> bool {
    n.start_tick < end && n.end_tick > start && !track_is_muted(track_muted, n.track)
}

pub open spec fn selected_notes(notes: Seq<Note>, start: u64, end: u64, track_muted: Seq<bool>) -> Seq<Note> {
    notes.filter(|n: Note| in_selection(n, start, end, track_muted))
}

/// The selected notes by track, then by start tick, ties in song order.
pub open spec fn summary_order(sel: Seq<Note>) -> Seq<Note> {
    stable_sort(stable_sort(sel).map_values(|n: Note| ByTrack(n))).map_values(|t: ByTrack| t.0)
}

/// A note's name and octave ("C4" for 60).
pub open spec fn spec_note_name(m: u8) -> Seq<char> {
    pitch_class_name((m % 12) as int) + signed_decimal(m / 12 - 1)
}

/// The name of track `t`, or "Track" when it has none.
pub open spec fn track_name(tracks: Seq<TrackInfo>, t: usize) -> Seq<char> {
    if t < tracks.len() && tracks[t as int].name is Some {
        tracks[t as int].name->0@
    } else {
        "Track"@
    }
}

/// The notes listed track by track: each track's group opens with "T",
/// its one-based number, its name and a colon, and lists its notes'
/// names separated by commas; groups are separated by bars.
pub open spec fn groups_text(sorted: Seq<Note>, tracks: Seq<TrackInfo>) -> Seq<char>
    decreases sorted.len(),
{
    if sorted.len() == 0 {
        seq![]
    } else {
        let prev = groups_text(sorted.drop_last(), tracks);
        let n = sorted.last();
        if sorted.len() >= 2 && sorted[sorted.len() - 2].track == n.track {
            prev + ", "@ + spec_note_name(n.midi_note)
        } else {
            prev + (if sorted.len() >= 2 { "   |   "@ } else { seq![] }) + "T"@ + decimal((n.track + 1) as nat) + " "@
                + track_name(tracks, n.track) + ": "@ + spec_note_name(n.midi_note)
        }
    }
}

/// The summary of a selection: the number of notes and the notes by track,
/// or a note that there are none.
pub open spec fn summary_text(notes: Seq<Note>, tracks: Seq<TrackInfo>, start: u64, end: u64, track_muted: Seq<bool>) -> Seq<char> {
    let sel = selected_notes(notes, start, end, track_muted);
    if sel.len() == 0 {
        "No notes in selection"@
    } else {
        decimal(sel.len()) + " note"@ + (if sel.len() == 1 { seq![] } else { "s"@ }) + " · "@
            + groups_text(summary_order(sel), tracks)
    }
}

fn select(notes: &[Note], start: u64, end: u64, track_muted: &[bool]) -> (r: Vec<Note>)
    ensures
        r@ == selected_notes(notes@, start, end, track_muted@),
{
    let mut out: Vec<Note> = Vec::new();
    let mut i: usize = 0;
    while i < notes.len()
        invariant
            0 <= i <= notes@.len(),
            out@ == selected_notes(notes@.take(i as int), start, end, track_muted@),
        decreases notes@.len() - i,
    {
        let n = notes[i];
        proof {
            assert(notes@.take(i + 1).drop_last() =~= notes@.take(i as int));
            reveal(Seq::filter);
        }
        let muted = n.track < track_muted.len() && track_muted[n.track];
        if n.start_tick < end && n.end_tick > start && !muted {
            out.push(n);
        }
        i = i + 1;
    }
    assert(notes@.take(notes@.len() as int) =~= notes@);
    out
}

fn order_for_summary(sel: &Vec<Note>) -> (r: Vec<Note>)
    ensures
        r@ == summary_order(sel@),
{
    let by_start = sort_by_tick(sel.as_slice());
    let mut wrapped: Vec<ByTrack> = Vec::new();
    let mut i: usize = 0;
    while i < by_start.len()
        invariant
            0 <= i <= by_start@.len(),
            wrapped@ == by_start@.take(i as int).map_values(|n: Note| ByTrack(n)),
        decreases by_start@.len() - i,
    {
        wrapped.push(ByTrack(by_start[i]));
        proof {
            assert(by_start@.take(i + 1).map_values(|n: Note| ByTrack(n)) =~= by_start@.take(i as int).map_values(|n: Note| ByTrack(n)).push(ByTrack(by_start@[i as int])));
        }
        i = i + 1;
    }
    assert(by_start@.take(by_start@.len() as int) =~= by_start@);
    let by_track = sort_by_tick(wrapped.as_slice());
    let mut out: Vec<Note> = Vec::new();
    let mut j: usize = 0;
    while j < by_track.len()
        invariant
            0 <= j <= by_track@.len(),
            out@ == by_track@.take(j as int).map_values(|t: ByTrack| t.0),
        decreases by_track@.len() - j,
    {
        out.push(by_track[j].0);
        proof {
            assert(by_track@.take(j + 1).map_values(|t: ByTrack| t.0) =~= by_track@.take(j as int).map_values(|t: ByTrack| t.0).push(by_track@[j as int].0));
        }
        j = j + 1;
    }
    assert(by_track@.take(by_track@.len() as int) =~= by_track@);
    out
}

fn append_track_name(s: &mut String, tracks: &[TrackInfo], t: usize)
    ensures
        final(s)@ == old(s)@ + track_name(tracks@, t),
{
    if t < tracks.len() {
        match &tracks[t].name {
            Some(name) => {
                s.append(name.as_str());
                return;
            },
            None => {},
        }
    }
    s.append("Track");
}

/// Human-readable summary of the notes under a staff selection from
/// `start` to `end` (at least one tick wide).
pub fn selection_summary(notes: &[Note], tracks: &[TrackInfo], track_muted: &[bool], start: u64, end: u64) -> (r: String)
    requires
        start < u64::MAX,
        forall|i: int| 0 <= i < notes@.len() ==> notes@[i].track < usize::MAX,
    ensures
        r@ == summary_text(notes@, tracks@, start, if end > start + 1 { end } else { (start + 1) as u64 }, track_muted@),
{
    let e = if end > start + 1 { end } else { start + 1 };
    let sel = select(notes, start, e, track_muted);
    if sel.len() == 0 {
        return String::from_str("No notes in selection");
    }
    proof {
        assert forall|i: int| 0 <= i < sel@.len() implies sel@[i].track < usize::MAX by {
            assert(sel@.contains(sel@[i]));
            notes@.lemma_filter_contains_rev(|n: Note| in_selection(n, start, e, track_muted@), sel@[i]);
        }
    }
    let sorted = order_for_summary(&sel);
    proof {
        lemma_summary_members(sel@);
        assert forall|k: int| 0 <= k < sorted@.len() implies sorted@[k].track < usize::MAX by {
            assert(sel@.contains(sorted@[k]));
            let j = choose|j: int| 0 <= j < sel@.len() && sel@[j] == sorted@[k];
            assert(sel@[j].track < usize::MAX);
        }
    }
    let mut s = String::new();
    assert(s@.len() == 0);
    append_decimal(&mut s, sel.len() as u64);
    s.append(" note");
    if sel.len() != 1 {
        s.append("s");
    }
    s.append(" · ");
    let ghost head = s@;
    proof {
        reveal_strlit(" note");
        reveal_strlit("s");
        reveal_strlit(" · ");
        assert(head =~= decimal(sel@.len()) + " note"@ + (if sel@.len() == 1 { seq![] } else { "s"@ }) + " · "@);
    }
    let mut i: usize = 0;
    while i < sorted.len()
        invariant
            0 <= i <= sorted@.len(),
            s@ == head + groups_text(sorted@.take(i as int), tracks@),
            forall|k: int| 0 <= k < sorted@.len() ==> sorted@[k].track < usize::MAX,
        decreases sorted@.len() - i,
    {
        let n = sorted[i];
        let ghost before = s@;
        if i >= 1 && sorted[i - 1].track == n.track {
            s.append(", ");
        } else {
            if i >= 1 {
                s.append("   |   ");
            }
            s.append("T");
            append_decimal(&mut s, n.track as u64 + 1);
            s.append(" ");
            append_track_name(&mut s, tracks, n.track);
            s.append(": ");
        }
        let name = note_name(n.midi_note);
        s.append(name.as_str());
        proof {
            let t = sorted@.take(i + 1);
            assert(t.drop_last() =~= sorted@.take(i as int));
            assert(t.last() == n);
            if i >= 1 {
                assert(t[t.len() - 2] == sorted@[i - 1]);
            }
            let prev = groups_text(sorted@.take(i as int), tracks@);
            if i >= 1 && sorted@[i - 1].track == n.track {
                assert(s@ =~= head + (prev + ", "@ + spec_note_name(n.midi_note)));
            } else {
                assert(s@ =~= head + (prev + (if i >= 1 { "   |   "@ } else { seq![] }) + "T"@ + decimal((n.track + 1) as nat) + " "@
                    + track_name(tracks@, n.track) + ": "@ + spec_note_name(n.midi_note)));
            }
        }
        i = i + 1;
    }
    assert(sorted@.take(sorted@.len() as int) =~= sorted@);
    s
}

/// Every note of the summary order is one of the selected notes, and none is lost.
proof fn lemma_summary_members(sel: Seq<Note>)
    ensures
        summary_order(sel).len() == sel.len(),
        forall|k: int| 0 <= k < summary_order(sel).len() ==> sel.contains(#[trigger] summary_order(sel)[k]),
{
    broadcast use vstd::seq_lib::group_to_multiset_ensures;

    let a = stable_sort(sel);
    crate::sort::lemma_stable_sort_props(sel);
    let w = a.map_values(|n: Note| ByTrack(n));
    crate::sort::lemma_stable_sort_props(w);
    let b = stable_sort(w);
    assert forall|k: int| 0 <= k < summary_order(sel).len() implies sel.contains(#[trigger] summary_order(sel)[k]) by {
        assert(summary_order(sel)[k] == b[k].0);
        assert(b.contains(b[k]));
        assert(b.to_multiset().count(b[k]) > 0);
        assert(w.contains(b[k]));
        let jw = choose|jw: int| 0 <= jw < w.len() && w[jw] == b[k];
        assert(w[jw].0 == a[jw]);
        assert(a.contains(a[jw]));
        assert(a.to_multiset().count(a[jw]) > 0);
        assert(sel.contains(a[jw]));
        assert(a[jw] == summary_order(sel)[k]);
    }
}

} // verus!
