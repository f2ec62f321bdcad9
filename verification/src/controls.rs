//! The decisions behind the viewer's controls: transport state, how a repeated
//! note picks its key, waveform-select keys, play-order numbering, live MIDI
//! input, and the texts of the option lists.
use vstd::prelude::*;
use crate::key::KeyId;
use crate::synth::Waveform;
use crate::sort::{sort_by_tick, key_sorted};
use crate::text::{str_equal, append_decimal, decimal, to_lowercase, lowercase};

verus! {

#[derive(Debug, Clone, Copy, PartialEq, Eq, Structural)]
pub enum PlayState {
    Stopped,
    Playing,
    Paused,
}

#[derive(Debug, Clone, Copy, PartialEq, Eq, Hash, Structural)]
pub enum ComputerKeyLocation {
    Standard,
    Left,
    Right,
    Numpad,
}

/// How to pick a key when a note repeats across this keyboard's overlapping
/// rows. LeftRight/UpDown are fixed preferences (always the last/first
/// occurrence); Closest minimizes on-screen travel.
#[derive(Debug, Clone, Copy, PartialEq, Eq, Structural)]
pub enum KeyPickMode {
    LeftRight,
    UpDown,
    Closest,
}

pub open spec fn key_pick_label(m: KeyPickMode) -> Seq<char> {
    match m {
        KeyPickMode::LeftRight => "Rows: L/R"@,
        KeyPickMode::UpDown => "Rows: U/D"@,
        KeyPickMode::Closest => "Rows: Closest"@,
    }
}

/// The mode after `m` in the toggle's cycle.
pub open spec fn next_mode(m: KeyPickMode) -> KeyPickMode {
    match m {
        KeyPickMode::LeftRight => KeyPickMode::UpDown,
        KeyPickMode::UpDown => KeyPickMode::Closest,
        KeyPickMode::Closest => KeyPickMode::LeftRight,
    }
}

impl KeyPickMode {
    /// The mode the toggle switches to: L/R, then U/D, then Closest, and round again.
    pub fn next(self) -> (r: Self)
        ensures
            r == next_mode(self),
    {
        match self {
            KeyPickMode::LeftRight => KeyPickMode::UpDown,
            KeyPickMode::UpDown => KeyPickMode::Closest,
            KeyPickMode::Closest => KeyPickMode::LeftRight,
        }
    }

    pub fn label(self) -> (r: &'static str)
        ensures
            r@ == key_pick_label(self),
    {
        match self {
            KeyPickMode::LeftRight => "Rows: L/R",
            KeyPickMode::UpDown => "Rows: U/D",
            KeyPickMode::Closest => "Rows: Closest",
        }
    }
}

/// Every press of the mode toggle changes the mode, and three presses come
/// back to the starting one.
pub proof fn lemma_key_pick_cycle(m: KeyPickMode)
    ensures
        next_mode(next_mode(next_mode(m))) == m,
        next_mode(m) != m,
{
}

/// LeftRight/UpDown mode: always the same fixed occurrence: the first (top
/// row) key for UpDown, the last one otherwise; none for no key.
pub fn pick_key_fixed(kids: &[KeyId], mode: KeyPickMode) -> (r: Option<KeyId>)
    ensures
        kids@.len() == 0 ==> r is None,
        kids@.len() > 0 && mode == KeyPickMode::UpDown ==> r == Some(kids@[0]),
        kids@.len() > 0 && mode != KeyPickMode::UpDown ==> r == Some(kids@[kids@.len() - 1]),
{
    if kids.len() == 0 {
        None
    } else if mode == KeyPickMode::UpDown {
        Some(kids[0])
    } else {
        Some(kids[kids.len() - 1])
    }
}

// ---------------------------------------------------------------------------
// Waveform-select keys
// ---------------------------------------------------------------------------

/// The Nav-cluster key label of each selectable waveform layer (Insert, Home,
/// PgUp, Delete, End, PgDn); the default organ tone has none.
pub open spec fn waveform_key_label(w: Waveform) -> Option<Seq<char>> {
    match w {
        Waveform::Triangle => Some("Insert"@),
        Waveform::Square => Some("Home"@),
        Waveform::Saw => Some("PgUp"@),
        Waveform::Sine => Some("Delete"@),
        Waveform::Pulse => Some("End"@),
        Waveform::Noise => Some("PgDn"@),
        Waveform::Organ => None,
    }
}

proof fn reveal_waveform_labels()
    ensures
        "Insert"@ == seq!['I', 'n', 's', 'e', 'r', 't'],
        "Home"@ == seq!['H', 'o', 'm', 'e'],
        "PgUp"@ == seq!['P', 'g', 'U', 'p'],
        "Delete"@ == seq!['D', 'e', 'l', 'e', 't', 'e'],
        "End"@ == seq!['E', 'n', 'd'],
        "PgDn"@ == seq!['P', 'g', 'D', 'n'],
{
    reveal_strlit("Insert");
    reveal_strlit("Home");
    reveal_strlit("PgUp");
    reveal_strlit("Delete");
    reveal_strlit("End");
    reveal_strlit("PgDn");
    assert("Insert"@ =~= seq!['I', 'n', 's', 'e', 'r', 't']);
    assert("Home"@ =~= seq!['H', 'o', 'm', 'e']);
    assert("PgUp"@ =~= seq!['P', 'g', 'U', 'p']);
    assert("Delete"@ =~= seq!['D', 'e', 'l', 'e', 't', 'e']);
    assert("End"@ =~= seq!['E', 'n', 'd']);
    assert("PgDn"@ =~= seq!['P', 'g', 'D', 'n']);
}

/// Distinct waveforms have distinct key labels.
pub proof fn lemma_waveform_labels_distinct(a: Waveform, b: Waveform)
    requires
        waveform_key_label(a) is Some,
        waveform_key_label(a) == waveform_key_label(b),
    ensures
        a == b,
{
    reveal_waveform_labels();
    let la = waveform_key_label(a)->0;
    let lb = waveform_key_label(b)->0;
    if a != b {
        assert(la.len() != lb.len() || la[0] != lb[0] || la[2] != lb[2]);
    }
}

/// The waveform layer a Nav key label selects, if any.
pub fn waveform_for_label(label: &str) -> (r: Option<Waveform>)
    ensures
        r matches Some(w) ==> waveform_key_label(w) == Some(label@),
        r is None ==> forall|w: Waveform| waveform_key_label(w) != Some(label@),
{
    if str_equal(label, "Insert") {
        Some(Waveform::Triangle)
    } else if str_equal(label, "Home") {
        Some(Waveform::Square)
    } else if str_equal(label, "PgUp") {
        Some(Waveform::Saw)
    } else if str_equal(label, "Delete") {
        Some(Waveform::Sine)
    } else if str_equal(label, "End") {
        Some(Waveform::Pulse)
    } else if str_equal(label, "PgDn") {
        Some(Waveform::Noise)
    } else {
        None
    }
}

/// The Nav key label of a waveform layer, if it has one.
pub fn label_for_waveform(w: Waveform) -> (r: Option<&'static str>)
    ensures
        r is None <==> waveform_key_label(w) is None,
        r matches Some(s) ==> waveform_key_label(w) == Some(s@),
{
    match w {
        Waveform::Triangle => Some("Insert"),
        Waveform::Square => Some("Home"),
        Waveform::Saw => Some("PgUp"),
        Waveform::Sine => Some("Delete"),
        Waveform::Pulse => Some("End"),
        Waveform::Noise => Some("PgDn"),
        Waveform::Organ => None,
    }
}

/// The active set after pressing `k`: it leaves the set if it was in, and
/// joins it otherwise.
pub open spec fn toggled(s: Set<KeyId>, k: KeyId) -> Set<KeyId> {
    if s.contains(k) {
        s.remove(k)
    } else {
        s.insert(k)
    }
}

/// Pressing the same waveform key twice gives back the active layers as
/// they were; pressing two different keys acts on each independently.
pub proof fn lemma_toggle_twice(s: Set<KeyId>, k: KeyId, other: KeyId)
    ensures
        toggled(toggled(s, k), k) == s,
        other != k ==> (toggled(toggled(s, k), other).contains(other) != s.contains(other)
            && toggled(toggled(s, k), other).contains(k) != s.contains(k)),
{
    assert(toggled(toggled(s, k), k) =~= s);
}


/// Toggles `pressed_key` in the list of active waveform-select keys: press once
/// to add that waveform as a layer, press again to remove it. Keys keep their
/// order; a new key goes last.
pub fn toggle_waveform_key(active: &mut Vec<KeyId>, pressed_key: KeyId)
    requires
        old(active)@.no_duplicates(),
    ensures
        final(active)@.no_duplicates(),
        old(active)@.contains(pressed_key) ==> final(active)@ == old(active)@.remove(
            old(active)@.index_of(pressed_key),
        ),
        !old(active)@.contains(pressed_key) ==> final(active)@ == old(active)@.push(pressed_key),
        final(active)@.to_set() == toggled(old(active)@.to_set(), pressed_key),
{
    let ghost before = active@;
    let mut i: usize = 0;
    while i < active.len()
        invariant
            0 <= i <= active@.len(),
            active@ == before,
            before == old(active)@,
            before.no_duplicates(),
            forall|k: int| 0 <= k < i ==> active@[k] != pressed_key,
        decreases active@.len() - i,
    {
        if active[i] == pressed_key {
            active.remove(i);
            proof {
                assert(before[i as int] == pressed_key);
                assert(before.contains(pressed_key));
                assert(before.index_of(pressed_key) == i);
                assert(active@ =~= before.remove(i as int));
                assert(active@.to_set() =~= before.to_set().remove(pressed_key)) by {
                    assert forall|x: KeyId| active@.to_set().contains(x) <==> before.to_set().remove(pressed_key).contains(x) by {
                        if active@.contains(x) {
                            let j = choose|j: int| 0 <= j < active@.len() && #[trigger] active@[j] == x;
                            if j < i {
                                assert(before[j] == x);
                            } else {
                                assert(before[j + 1] == x);
                                if x == pressed_key {
                                    assert(before.no_duplicates());
                                }
                            }
                        }
                        if before.to_set().remove(pressed_key).contains(x) {
                            let j = choose|j: int| 0 <= j < before.len() && #[trigger] before[j] == x;
                            assert(j != i);
                            if j < i {
                                assert(active@[j] == x);
                            } else {
                                assert(active@[j - 1] == x);
                            }
                        }
                    }
                }
            }
            return;
        }
        i = i + 1;
    }
    active.push(pressed_key);
    proof {
        assert(!before.contains(pressed_key));
        assert(active@.to_set() =~= before.to_set().insert(pressed_key)) by {
            assert forall|x: KeyId| active@.to_set().contains(x) <==> before.to_set().insert(pressed_key).contains(x) by {
                if before.contains(x) {
                    let j = choose|j: int| 0 <= j < before.len() && #[trigger] before[j] == x;
                    assert(active@[j] == x);
                }
                if active@.contains(x) {
                    let j = choose|j: int| 0 <= j < active@.len() && #[trigger] active@[j] == x;
                    if j < before.len() {
                        assert(before[j] == x);
                    }
                }
                if x == pressed_key {
                    assert(active@[before.len() as int] == x);
                }
            }
        }
    }
}

// ---------------------------------------------------------------------------
// Play-order numbering
// ---------------------------------------------------------------------------

pub open spec fn strictly_increasing(s: Seq<u64>) -> bool {
    forall|i: int, j: int| 0 <= i < j < s.len() ==> s[i] < s[j]
}

pub open spec fn strictly_increasing_steps(s: Seq<usize>) -> bool {
    forall|i: int, j: int| 0 <= i < j < s.len() ==> s[i] < s[j]
}

/// Every tick assigned to any key.
pub open spec fn all_ticks(entries: Seq<(KeyId, Vec<u64>)>) -> Set<u64> {
    Set::new(|t: u64| exists|i: int| 0 <= i < entries.len() && #[trigger] entries[i].1@.contains(t))
}

/// One-based position of `t` among the distinct onsets: onsets are numbered in
/// time order, equal ticks sharing a number.
pub open spec fn onset_step(all: Set<u64>, t: u64) -> int {
    all.filter(|u: u64| u < t).len() as int + 1
}

/// Sorted copy without repeats: strictly increasing, same elements.
fn sorted_unique(v: &[u64]) -> (r: Vec<u64>)
    ensures
        strictly_increasing(r@),
        r@.to_set() == v@.to_set(),
{
    broadcast use vstd::seq_lib::group_to_multiset_ensures;

    let s = sort_by_tick(v);
    assert forall|x: u64| s@.contains(x) <==> v@.contains(x) by {
        assert(s@.to_multiset().count(x) == v@.to_multiset().count(x));
    }
    let mut r: Vec<u64> = Vec::new();
    let mut i: usize = 0;
    while i < s.len()
        invariant
            0 <= i <= s@.len(),
            key_sorted(s@),
            strictly_increasing(r@),
            r@.to_set() == s@.take(i as int).to_set(),
            i > 0 ==> r@.len() > 0 && r@[r@.len() - 1] == s@[i - 1],
            i == 0 ==> r@.len() == 0,
        decreases s@.len() - i,
    {
        let x = s[i];
        let ghost before = r@;
        if r.len() == 0 || r[r.len() - 1] != x {
            r.push(x);
            proof {
                if i > 0 {
                    assert(s@[i - 1] <= x);
                }
                assert(r@.to_set() =~= before.to_set().insert(x)) by {
                    assert forall|y: u64| r@.to_set().contains(y) <==> before.to_set().insert(x).contains(y) by {
                        if before.contains(y) {
                            let j = choose|j: int| 0 <= j < before.len() && #[trigger] before[j] == y;
                            assert(r@[j] == y);
                        }
                        if r@.contains(y) {
                            let j = choose|j: int| 0 <= j < r@.len() && #[trigger] r@[j] == y;
                            if j < before.len() {
                                assert(before[j] == y);
                            }
                        }
                        if y == x {
                            assert(r@[before.len() as int] == y);
                        }
                    }
                }
            }
        } else {
            proof {
                assert(before.contains(x)) by {
                    assert(before[before.len() - 1] == x);
                }
            }
        }
        proof {
            assert(s@.take(i + 1) =~= s@.take(i as int).push(x));
            assert(s@.take(i + 1).to_set() =~= s@.take(i as int).to_set().insert(x)) by {
                assert forall|y: u64| s@.take(i + 1).to_set().contains(y) <==> s@.take(i as int).to_set().insert(x).contains(y) by {
                    if s@.take(i as int).contains(y) {
                        let j = choose|j: int| 0 <= j < i && #[trigger] s@.take(i as int)[j] == y;
                        assert(s@.take(i + 1)[j] == y);
                    }
                    if s@.take(i + 1).contains(y) {
                        let j = choose|j: int| 0 <= j < i + 1 && #[trigger] s@.take(i + 1)[j] == y;
                        if j < i {
                            assert(s@.take(i as int)[j] == y);
                        }
                    }
                    if y == x {
                        assert(s@.take(i + 1)[i as int] == y);
                    }
                }
            }
            assert(r@.to_set() =~= s@.take(i + 1).to_set());
        }
        i = i + 1;
    }
    assert(s@.take(s@.len() as int) =~= s@);
    assert(r@.to_set() =~= v@.to_set()) by {
        assert forall|y: u64| r@.to_set().contains(y) <==> v@.to_set().contains(y) by {
            assert(s@.contains(y) <==> v@.contains(y));
        }
    }
    r
}

/// Index of `t` in the strictly increasing `g`, which holds it.
fn index_in(g: &Vec<u64>, t: u64) -> (r: usize)
    requires
        strictly_increasing(g@),
        g@.contains(t),
    ensures
        r < g@.len(),
        g@[r as int] == t,
{
    let mut low: usize = 0;
    let mut high: usize = g.len();
    while low < high
        invariant
            0 <= low <= high <= g@.len(),
            strictly_increasing(g@),
            g@.contains(t),
            forall|k: int| 0 <= k < low ==> g@[k] < t,
            forall|k: int| high <= k < g@.len() ==> g@[k] > t,
        decreases high - low,
    {
        let mid = low + (high - low) / 2;
        if g[mid] < t {
            low = mid + 1;
        } else if g[mid] > t {
            high = mid;
        } else {
            return mid;
        }
    }
    assert(false) by {
        let k = choose|k: int| 0 <= k < g@.len() && #[trigger] g@[k] == t;
    }
    0
}

proof fn lemma_concat_contains(a: Seq<u64>, b: Seq<u64>, t: u64)
    ensures
        (a + b).contains(t) <==> a.contains(t) || b.contains(t),
{
    if (a + b).contains(t) {
        let q = choose|q: int| 0 <= q < (a + b).len() && #[trigger] (a + b)[q] == t;
        if q < a.len() {
            assert(a[q] == t);
        } else {
            assert(b[q - a.len()] == t);
        }
    }
    if a.contains(t) {
        let q = choose|q: int| 0 <= q < a.len() && #[trigger] a[q] == t;
        assert((a + b)[q] == t);
    }
    if b.contains(t) {
        let q = choose|q: int| 0 <= q < b.len() && #[trigger] b[q] == t;
        assert((a + b)[q + a.len()] == t);
    }
}

proof fn lemma_increasing_no_dups(g: Seq<u64>)
    requires
        strictly_increasing(g),
    ensures
        g.no_duplicates(),
{
    assert forall|a: int, b: int| 0 <= a < g.len() && 0 <= b < g.len() && a != b implies g[a] != g[b] by {
        if a < b {
            assert(g[a] < g[b]);
        } else {
            assert(g[b] < g[a]);
        }
    }
}

/// A later onset gets a later step.
proof fn lemma_onset_step_increasing(all: Set<u64>, ta: u64, tb: u64)
    requires
        all.finite(),
        all.contains(ta),
        ta < tb,
    ensures
        onset_step(all, ta) < onset_step(all, tb),
{
    let fa = all.filter(|u: u64| u < ta);
    let fb = all.filter(|u: u64| u < tb);
    vstd::set_lib::lemma_len_subset(fb, all);
    vstd::set_lib::lemma_len_subset(fa, fb);
    assert(fb.contains(ta));
    assert(!fa.contains(ta));
    assert(fa.insert(ta).subset_of(fb));
    vstd::set_lib::lemma_len_subset(fa.insert(ta), fb);
}

/// In a strictly increasing sequence, exactly `k` elements lie below the `k`-th.
proof fn lemma_rank_in_increasing(g: Seq<u64>, k: int)
    requires
        strictly_increasing(g),
        0 <= k < g.len(),
    ensures
        g.to_set().filter(|u: u64| u < g[k]).len() == k,
{
    let below = g.to_set().filter(|u: u64| u < g[k]);
    let pre = g.take(k);
    assert(below =~= pre.to_set()) by {
        assert forall|u: u64| below.contains(u) <==> pre.to_set().contains(u) by {
            if below.contains(u) {
                let j = choose|j: int| 0 <= j < g.len() && #[trigger] g[j] == u;
                if j >= k {
                    assert(g[k] <= g[j]) by {
                        if j > k {
                            assert(g[k] < g[j]);
                        }
                    }
                }
                assert(pre[j] == u);
            }
            if pre.to_set().contains(u) {
                let j = choose|j: int| 0 <= j < pre.len() && #[trigger] pre[j] == u;
                assert(g[j] == u);
                assert(g[j] < g[k]);
            }
        }
    }
    assert(pre.no_duplicates()) by {
        assert forall|a: int, b: int| 0 <= a < pre.len() && 0 <= b < pre.len() && a != b implies pre[a] != pre[b] by {
            if a < b {
                assert(g[a] < g[b]);
            } else {
                assert(g[b] < g[a]);
            }
        }
    }
    pre.unique_seq_to_set();
}

/// Converts the note-on ticks assigned to each highlighted key into one-based
/// play steps. Equal ticks receive the same number (those keys form a chord);
/// a key used again later keeps every step number. Each key's steps are
/// listed in increasing order, keys in their given order.
pub fn play_order_from_ticks(ticks_by_key: Vec<(KeyId, Vec<u64>)>) -> (r: Vec<(KeyId, Vec<usize>)>)
    requires
        all_ticks(ticks_by_key@).len() < usize::MAX,
    ensures
        r@.len() == ticks_by_key@.len(),
        forall|i: int|
            0 <= i < r@.len() ==> {
                &&& (#[trigger] r@[i]).0 == ticks_by_key@[i].0
                &&& strictly_increasing_steps(r@[i].1@)
                &&& forall|s: usize|
                    r@[i].1@.contains(s) <==> exists|t: u64|
                        ticks_by_key@[i].1@.contains(t) && s == onset_step(all_ticks(ticks_by_key@), t)
            },
{
    let ghost all = all_ticks(ticks_by_key@);
    let mut flat: Vec<u64> = Vec::new();
    let mut i: usize = 0;
    while i < ticks_by_key.len()
        invariant
            0 <= i <= ticks_by_key@.len(),
            forall|t: u64|
                flat@.contains(t) <==> exists|k: int| 0 <= k < i && #[trigger] ticks_by_key@[k].1@.contains(t),
        decreases ticks_by_key@.len() - i,
    {
        let ticks = &ticks_by_key[i].1;
        let mut j: usize = 0;
        let ghost before = flat@;
        while j < ticks.len()
            invariant
                0 <= j <= ticks@.len(),
                i < ticks_by_key@.len(),
                ticks@ == ticks_by_key@[i as int].1@,
                flat@ == before + ticks@.take(j as int),
            decreases ticks@.len() - j,
        {
            flat.push(ticks[j]);
            proof {
                assert(ticks@.take(j + 1) =~= ticks@.take(j as int).push(ticks@[j as int]));
                assert(flat@ =~= before + ticks@.take(j + 1));
            }
            j = j + 1;
        }
        proof {
            assert(ticks@.take(ticks@.len() as int) =~= ticks@);
            assert forall|t: u64|
                flat@.contains(t) <==> exists|k: int| 0 <= k < i + 1 && #[trigger] ticks_by_key@[k].1@.contains(t) by {
                lemma_concat_contains(before, ticks@, t);
                if ticks_by_key@[i as int].1@.contains(t) {
                    assert(0 <= i < i + 1);
                }
                if exists|k: int| 0 <= k < i + 1 && #[trigger] ticks_by_key@[k].1@.contains(t) {
                    let k = choose|k: int| 0 <= k < i + 1 && #[trigger] ticks_by_key@[k].1@.contains(t);
                    if k < i {
                        assert(before.contains(t));
                    }
                }
            }
        }
        i = i + 1;
    }
    let g = sorted_unique(flat.as_slice());
    assert(g@.to_set() =~= all) by {
        assert forall|t: u64| g@.to_set().contains(t) <==> all.contains(t) by {
            assert(flat@.to_set().contains(t) <==> flat@.contains(t));
        }
    }

    let mut out: Vec<(KeyId, Vec<usize>)> = Vec::new();
    let mut k: usize = 0;
    while k < ticks_by_key.len()
        invariant
            0 <= k <= ticks_by_key@.len(),
            strictly_increasing(g@),
            g@.to_set() == all,
            all == all_ticks(ticks_by_key@),
            all.len() < usize::MAX,
            out@.len() == k,
            forall|q: int|
                0 <= q < k ==> {
                    &&& (#[trigger] out@[q]).0 == ticks_by_key@[q].0
                    &&& strictly_increasing_steps(out@[q].1@)
                    &&& forall|s: usize|
                        out@[q].1@.contains(s) <==> exists|t: u64|
                            ticks_by_key@[q].1@.contains(t) && s == onset_step(all, t)
                },
        decreases ticks_by_key@.len() - k,
    {
        let key = ticks_by_key[k].0;
        let key_ticks = sorted_unique(ticks_by_key[k].1.as_slice());
        let ghost kt = ticks_by_key@[k as int].1@;
        let mut steps: Vec<usize> = Vec::new();
        let mut m: usize = 0;
        while m < key_ticks.len()
            invariant
                0 <= m <= key_ticks@.len(),
                k < ticks_by_key@.len(),
                kt == ticks_by_key@[k as int].1@,
                strictly_increasing(g@),
                strictly_increasing(key_ticks@),
                key_ticks@.to_set() == kt.to_set(),
                g@.to_set() == all,
                all == all_ticks(ticks_by_key@),
                all.len() < usize::MAX,
                steps@.len() == m,
                forall|q: int| 0 <= q < m ==> #[trigger] steps@[q] == onset_step(all, key_ticks@[q]),
                forall|q: int| 0 <= q < m ==> steps@[q] <= all.len(),
            decreases key_ticks@.len() - m,
        {
            let t = key_ticks[m];
            proof {
                assert(key_ticks@.to_set().contains(t));
                assert(kt.contains(t));
                assert(all.contains(t)) by {
                    assert(ticks_by_key@[k as int].1@.contains(t));
                }
                assert(g@.to_set().contains(t));
            }
            let idx = index_in(&g, t);
            proof {
                lemma_rank_in_increasing(g@, idx as int);
                lemma_increasing_no_dups(g@);
                g@.unique_seq_to_set();
            }
            steps.push(idx + 1);
            m = m + 1;
        }
        proof {
            assert(strictly_increasing_steps(steps@)) by {
                assert forall|a: int, b: int| 0 <= a < b < steps@.len() implies steps@[a] < steps@[b] by {
                    let ta = key_ticks@[a];
                    let tb = key_ticks@[b];
                    assert(ta < tb);
                    assert(key_ticks@.to_set().contains(ta));
                    assert(all.contains(ta)) by {
                        assert(ticks_by_key@[k as int].1@.contains(ta));
                    }
                    vstd::seq_lib::seq_to_set_is_finite(g@);
                    lemma_onset_step_increasing(all, ta, tb);
                }
            }
            assert forall|s: usize|
                steps@.contains(s) <==> exists|t: u64| kt.contains(t) && s == onset_step(all, t) by {
                if steps@.contains(s) {
                    let q = choose|q: int| 0 <= q < steps@.len() && #[trigger] steps@[q] == s;
                    let t = key_ticks@[q];
                    assert(key_ticks@.to_set().contains(t));
                    assert(kt.contains(t) && s == onset_step(all, t));
                }
                if exists|t: u64| kt.contains(t) && s == onset_step(all, t) {
                    let t = choose|t: u64| kt.contains(t) && s == onset_step(all, t);
                    assert(kt.to_set().contains(t));
                    assert(key_ticks@.contains(t));
                    let q = choose|q: int| 0 <= q < key_ticks@.len() && #[trigger] key_ticks@[q] == t;
                    assert(steps@[q] == s);
                }
            }
        }
        out.push((key, steps));
        k = k + 1;
    }
    out
}


// ---------------------------------------------------------------------------
// Live MIDI input
// ---------------------------------------------------------------------------

#[derive(Debug, Clone, Copy, PartialEq, Eq, Structural)]
pub enum MidiInputAction {
    NoteOn { note: u8, velocity: u8, channel: u8 },
    NoteOff { note: u8, channel: u8 },
    AllNotesOff { channel: u8 },
}

/// The action a MIDI message asks of the viewer: note on (velocity > 0), note
/// off (a note-off message, or a note-on with velocity 0), or all notes off
/// (controller 120 or 123) on the status byte's channel; nothing for any other
/// or any truncated message.
pub open spec fn midi_input_action(data: Seq<u8>) -> Option<MidiInputAction> {
    if data.len() == 0 {
        None
    } else {
        let status = data[0];
        let channel = status & 0x0Fu8;
        let kind = status & 0xF0u8;
        if kind == 0x90 && data.len() >= 3 && data[2] > 0 {
            Some(MidiInputAction::NoteOn { note: data[1] & 0x7Fu8, velocity: data[2] & 0x7Fu8, channel })
        } else if (kind == 0x80 || kind == 0x90) && data.len() >= 3 {
            Some(MidiInputAction::NoteOff { note: data[1] & 0x7Fu8, channel })
        } else if kind == 0xB0 && data.len() >= 3 && (data[1] == 120 || data[1] == 123) {
            Some(MidiInputAction::AllNotesOff { channel })
        } else {
            None
        }
    }
}

/// Reduces the MIDI messages relevant to this viewer to explicit actions.
pub fn parse_midi_input(data: &[u8]) -> (r: Option<MidiInputAction>)
    ensures
        r == midi_input_action(data@),
{
    if data.len() == 0 {
        return None;
    }
    let status = data[0];
    let channel = status & 0x0F;
    let kind = status & 0xF0;
    if kind == 0x90 && data.len() >= 3 && data[2] > 0 {
        Some(MidiInputAction::NoteOn { note: data[1] & 0x7F, velocity: data[2] & 0x7F, channel })
    } else if (kind == 0x80 || kind == 0x90) && data.len() >= 3 {
        Some(MidiInputAction::NoteOff { note: data[1] & 0x7F, channel })
    } else if kind == 0xB0 && data.len() >= 3 && (data[1] == 120 || data[1] == 123) {
        Some(MidiInputAction::AllNotesOff { channel })
    } else {
        None
    }
}

// ---------------------------------------------------------------------------
// URL settings
// ---------------------------------------------------------------------------

pub open spec fn waveform_slug_text(w: Waveform) -> Seq<char> {
    match w {
        Waveform::Organ => "organ"@,
        Waveform::Triangle => "triangle"@,
        Waveform::Square => "square"@,
        Waveform::Saw => "saw"@,
        Waveform::Sine => "sine"@,
        Waveform::Pulse => "pulse"@,
        Waveform::Noise => "noise"@,
    }
}

/// The URL name of a waveform.
pub fn waveform_slug(w: Waveform) -> (r: &'static str)
    ensures
        r@ == waveform_slug_text(w),
{
    match w {
        Waveform::Organ => "organ",
        Waveform::Triangle => "triangle",
        Waveform::Square => "square",
        Waveform::Saw => "saw",
        Waveform::Sine => "sine",
        Waveform::Pulse => "pulse",
        Waveform::Noise => "noise",
    }
}

pub open spec fn slug_waveform(s: Seq<char>) -> Option<Waveform> {
    if s == "triangle"@ {
        Some(Waveform::Triangle)
    } else if s == "square"@ {
        Some(Waveform::Square)
    } else if s == "saw"@ {
        Some(Waveform::Saw)
    } else if s == "sine"@ {
        Some(Waveform::Sine)
    } else if s == "pulse"@ {
        Some(Waveform::Pulse)
    } else if s == "noise"@ {
        Some(Waveform::Noise)
    } else {
        None
    }
}

/// The waveform layer a URL name selects. The default organ tone is not a
/// layer, so "organ" selects nothing.
pub fn waveform_from_slug(s: &str) -> (r: Option<Waveform>)
    ensures
        r == slug_waveform(s@),
        r matches Some(w) ==> w != Waveform::Organ && waveform_slug_text(w) == s@,
        r is None ==> forall|w: Waveform| w != Waveform::Organ ==> waveform_slug_text(w) != s@,
{
    if str_equal(s, "triangle") {
        Some(Waveform::Triangle)
    } else if str_equal(s, "square") {
        Some(Waveform::Square)
    } else if str_equal(s, "saw") {
        Some(Waveform::Saw)
    } else if str_equal(s, "sine") {
        Some(Waveform::Sine)
    } else if str_equal(s, "pulse") {
        Some(Waveform::Pulse)
    } else if str_equal(s, "noise") {
        Some(Waveform::Noise)
    } else {
        None
    }
}

/// A layer's URL name reads back as the same layer; the organ's reads as
/// no layer. No URL name holds a comma or an ampersand.
pub proof fn lemma_waveform_slug_roundtrip(w: Waveform)
    ensures
        w != Waveform::Organ ==> slug_waveform(waveform_slug_text(w)) == Some(w),
        w == Waveform::Organ ==> slug_waveform(waveform_slug_text(w)) is None,
        forall|j: int| 0 <= j < waveform_slug_text(w).len() ==> waveform_slug_text(w)[j] != ',',
        forall|j: int| 0 <= j < waveform_slug_text(w).len() ==> waveform_slug_text(w)[j] != '&',
{
    reveal_strlit("organ");
    reveal_strlit("triangle");
    reveal_strlit("square");
    reveal_strlit("saw");
    reveal_strlit("sine");
    reveal_strlit("pulse");
    reveal_strlit("noise");
    let t = waveform_slug_text(w);
    assert(t.len() >= 3);
    if w == Waveform::Organ {
        assert(t != "triangle"@ && t != "square"@ && t != "saw"@ && t != "sine"@ && t != "pulse"@ && t != "noise"@) by {
            assert(t[0] == 'o');
        }
    } else if w == Waveform::Square {
        assert(t != "triangle"@) by { assert(t[0] != 't'); }
    } else if w == Waveform::Saw {
        assert(t != "triangle"@ && t != "square"@) by { assert(t[0] == 's' && t[1] == 'a'); }
    } else if w == Waveform::Sine {
        assert(t != "triangle"@ && t != "square"@ && t != "saw"@) by { assert(t[1] == 'i'); }
    } else if w == Waveform::Pulse {
        assert(t != "triangle"@ && t != "square"@ && t != "saw"@ && t != "sine"@) by { assert(t[0] == 'p'); }
    } else if w == Waveform::Noise {
        assert(t != "triangle"@ && t != "square"@ && t != "saw"@ && t != "sine"@ && t != "pulse"@) by { assert(t[0] == 'n'); }
    }
}

/// `s` with every space replaced by an underscore.
pub open spec fn underscore_spaces(s: Seq<char>) -> Seq<char> {
    s.map_values(|c: char| if c == ' ' { '_' } else { c })
}

/// URL-safe query key for a knob, derived from its display label
/// ("Vib Depth" -> "vib_depth"): lowercase, spaces as underscores.
pub fn knob_slug(label: &str) -> (r: String)
    ensures
        r@ == underscore_spaces(lowercase(label@)),
{
    let lower = to_lowercase(label);
    let text = lower.as_str();
    let n = text.unicode_len();
    let mut out = String::new();
    let mut i: usize = 0;
    proof {
        reveal_strlit("_");
    }
    while i < n
        invariant
            0 <= i <= n,
            n == text@.len(),
            text@ == lowercase(label@),
            out@ == underscore_spaces(text@.take(i as int)),
        decreases n - i,
    {
        let c = text.get_char(i);
        let ghost before = out@;
        if c == ' ' {
            out.append("_");
            proof {
                reveal_strlit("_");
            }
            assert("_"@ =~= seq!['_']);
            assert(out@ =~= before.push('_'));
        } else {
            let piece = text.substring_char(i, i + 1);
            out.append(piece);
            assert(piece@ =~= seq![c]);
            assert(out@ =~= before.push(c));
        }
        proof {
            assert(text@.take(i + 1) =~= text@.take(i as int).push(c));
            assert(underscore_spaces(text@.take(i + 1)) =~= underscore_spaces(text@.take(i as int)).push(
                if c == ' ' { '_' } else { c },
            ));
            assert(text@.subrange(i as int, i + 1) =~= seq![c]);
        }
        i = i + 1;
    }
    assert(text@.take(n as int) =~= text@);
    out
}

// ---------------------------------------------------------------------------
// Option lists
// ---------------------------------------------------------------------------

/// A MIDI channel choice (1-16) for a dropdown, labeled with `prefix`
/// (e.g. "CH" or "PLAY CH").
#[derive(Clone, Copy, PartialEq, Eq, Debug)]
pub struct ChannelOption {
    pub prefix: &'static str,
    pub channel: u8,
}

impl ChannelOption {
    /// "<prefix> <channel>".
    pub fn label(&self) -> (r: String)
        ensures
            r@ == self.prefix@ + " "@ + decimal(self.channel as nat),
    {
        let mut s = String::from_str(self.prefix);
        s.append(" ");
        append_decimal(&mut s, self.channel as u64);
        s
    }
}

/// The sixteen MIDI channels, 1 to 16, each with the given label prefix.
pub fn channel_options(prefix: &'static str) -> (r: Vec<ChannelOption>)
    ensures
        r@.len() == 16,
        forall|i: int| 0 <= i < 16 ==> (#[trigger] r@[i]).channel == i + 1 && r@[i].prefix == prefix,
{
    let mut out: Vec<ChannelOption> = Vec::new();
    let mut channel: u8 = 1;
    while channel <= 16
        invariant
            1 <= channel <= 17,
            out@.len() == channel - 1,
            forall|i: int| 0 <= i < out@.len() ==> (#[trigger] out@[i]).channel == i + 1 && out@[i].prefix == prefix,
        decreases 17 - channel,
    {
        out.push(ChannelOption { prefix, channel });
        channel = channel + 1;
    }
    out
}

/// A per-track octave shift (in octaves) for a dropdown.
#[derive(Clone, Copy, PartialEq, Eq, Debug)]
pub struct TrackOctaveOption(pub i8);

pub open spec fn octave_option_text(n: i8) -> Seq<char> {
    if n == 0 {
        "OCT ±0"@
    } else if n > 0 {
        "OCT +"@ + decimal(n as nat)
    } else {
        "OCT -"@ + decimal((-n) as nat)
    }
}

impl TrackOctaveOption {
    /// "OCT ±0", "OCT +n" or "OCT -n".
    pub fn label(&self) -> (r: String)
        ensures
            r@ == octave_option_text(self.0),
    {
        if self.0 == 0 {
            String::from_str("OCT ±0")
        } else if self.0 > 0 {
            let mut s = String::from_str("OCT +");
            append_decimal(&mut s, self.0 as u64);
            s
        } else {
            let mut s = String::from_str("OCT -");
            let m: i16 = -(self.0 as i16);
            append_decimal(&mut s, m as u64);
            s
        }
    }
}

/// Octave shifts from three down to three up.
pub fn track_octave_options() -> (r: Vec<TrackOctaveOption>)
    ensures
        r@.len() == 7,
        forall|i: int| 0 <= i < 7 ==> (#[trigger] r@[i]).0 == i - 3,
{
    let mut out: Vec<TrackOctaveOption> = Vec::new();
    let mut v: i8 = -3;
    while v <= 3
        invariant
            -3 <= v <= 4,
            out@.len() == v + 3,
            forall|i: int| 0 <= i < out@.len() ==> (#[trigger] out@[i]).0 == i - 3,
        decreases 4 - v,
    {
        out.push(TrackOctaveOption(v));
        v = v + 1;
    }
    out
}
} // verus!

verus! {

use crate::key::Key;

/// The waveform layers toggled on: the waveform of each board key (in board
/// order) that is among the active keys and names a waveform.
pub open spec fn active_layers(keys: Seq<Key>, active: Seq<KeyId>) -> Seq<Waveform>
    decreases keys.len(),
{
    if keys.len() == 0 {
        seq![]
    } else {
        let rest = active_layers(keys.drop_last(), active);
        let k = keys.last();
        if active.contains(k.id) && exists|w: Waveform| waveform_key_label(w) == Some(k.label@) {
            rest.push(choose|w: Waveform| waveform_key_label(w) == Some(k.label@))
        } else {
            rest
        }
    }
}

pub fn active_waveforms(keys: &[Key], active: &Vec<KeyId>) -> (r: Vec<Waveform>)
    ensures
        r@ == active_layers(keys@, active@),
{
    let mut out: Vec<Waveform> = Vec::new();
    let mut i: usize = 0;
    while i < keys.len()
        invariant
            0 <= i <= keys@.len(),
            out@ == active_layers(keys@.take(i as int), active@),
        decreases keys@.len() - i,
    {
        proof {
            assert(keys@.take(i + 1).drop_last() =~= keys@.take(i as int));
            assert(keys@.take(i + 1).last() == keys@[i as int]);
        }
        let k = &keys[i];
        let mut is_active = false;
        let mut j: usize = 0;
        while j < active.len()
            invariant
                0 <= j <= active@.len(),
                is_active == exists|m: int| 0 <= m < j && active@[m] == k.id,
            decreases active@.len() - j,
        {
            if active[j] == k.id {
                is_active = true;
            }
            j = j + 1;
        }
        if is_active {
            match waveform_for_label(k.label) {
                Some(w) => {
                    proof {
                        lemma_waveform_labels_distinct(w, choose|v: Waveform| waveform_key_label(v) == Some(k.label@));
                    }
                    out.push(w);
                },
                None => {},
            }
        }
        i = i + 1;
    }
    assert(keys@.take(keys@.len() as int) =~= keys@);
    out
}

} // verus!
