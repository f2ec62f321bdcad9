//! The soft synth's decisions: waveforms, which engine a note goes to, and
//! how notes are given voices, retriggered, stolen and released.
use vstd::prelude::*;
use crate::drums::{DrumType, midi_note_to_drum_type, spec_midi_note_to_drum_type};

verus! {

/// GM convention: MIDI channel 10 (0-indexed 9) is the percussion channel.
pub const DRUM_CHANNEL: u8 = 9;

/// Number of encoder knobs on the board.
pub const KNOB_COUNT: usize = 12;

#[derive(Debug, Clone, Copy, PartialEq, Eq, Structural)]
pub enum Waveform {
    Organ,
    Triangle,
    Square,
    Saw,
    Sine,
    Pulse,
    Noise,
}

/// The organ tone is the default voice.
impl Default for Waveform {
    fn default() -> (r: Waveform)
        ensures
            r == Waveform::Organ,
    {
        Waveform::Organ
    }
}

} // verus!

verus! {

/// Which engine a note-on goes to.
#[derive(Debug, Clone, Copy, PartialEq, Eq, Structural)]
pub enum NoteTarget {
    /// A one-shot of the drum engine, whatever waveform is selected.
    Drum(DrumType),
    /// A percussion note with no drum instrument: nothing sounds.
    Silent,
    /// A melodic voice in the selected waveform.
    Melodic,
}

/// Notes on the percussion channel go to the drum engine (those outside
/// the GM percussion range are dropped); every other channel is melodic.
pub open spec fn spec_note_target(note: u8, channel: u8) -> NoteTarget {
    if channel != DRUM_CHANNEL {
        NoteTarget::Melodic
    } else {
        match spec_midi_note_to_drum_type(note) {
            Some(t) => NoteTarget::Drum(t),
            None => NoteTarget::Silent,
        }
    }
}

pub fn note_target(note: u8, channel: u8) -> (r: NoteTarget)
    ensures
        r == spec_note_target(note, channel),
        channel != DRUM_CHANNEL ==> r == NoteTarget::Melodic,
        channel == DRUM_CHANNEL ==> r == match spec_midi_note_to_drum_type(note) {
            Some(t) => NoteTarget::Drum(t),
            None => NoteTarget::Silent,
        },
{
    if channel != DRUM_CHANNEL {
        return NoteTarget::Melodic;
    }
    match midi_note_to_drum_type(note) {
        Some(t) => NoteTarget::Drum(t),
        None => NoteTarget::Silent,
    }
}

/// Polyphony of the melodic voices and of the drum voices.
pub const MAX_VOICES: usize = 16;
pub const MAX_DRUM_VOICES: usize = 12;

/// Envelope stage of a melodic voice.
#[derive(Debug, Clone, Copy, PartialEq, Eq, Structural)]
pub enum Stage {
    Attack,
    Decay,
    Sustain,
    Release,
    Done,
}

/// The note a melodic voice plays and where its envelope is.
#[derive(Debug, Clone, Copy, PartialEq, Eq, Structural)]
pub struct VoiceSlot {
    pub note: u8,
    pub stage: Stage,
}

/// How a melodic note-on is voiced.
#[derive(Debug, Clone, Copy, PartialEq, Eq, Structural)]
pub enum VoicePlan {
    /// Voice `i` already plays the note: restart its attack at the new velocity.
    Retrigger(usize),
    /// Start a new voice, first removing voice `evict` when the pool is full.
    Start { evict: Option<usize> },
}

/// Index of the first voice (from `i` on) still sounding `note`.
pub open spec fn sounding_index(voices: Seq<VoiceSlot>, note: u8, i: int) -> int
    decreases voices.len() - i,
{
    if i < 0 || i >= voices.len() {
        voices.len() as int
    } else if voices[i].note == note && voices[i].stage != Stage::Done {
        i
    } else {
        sounding_index(voices, note, i + 1)
    }
}

/// Index of the first finished voice from `i` on.
pub open spec fn done_index(voices: Seq<VoiceSlot>, i: int) -> int
    decreases voices.len() - i,
{
    if i < 0 || i >= voices.len() {
        voices.len() as int
    } else if voices[i].stage == Stage::Done {
        i
    } else {
        done_index(voices, i + 1)
    }
}

/// A note already sounding is retriggered so the same key does not build
/// up; otherwise a new voice starts, and when all voices are in use the
/// first finished one (or else the oldest) makes room.
pub open spec fn spec_plan_note_on(voices: Seq<VoiceSlot>, note: u8) -> VoicePlan {
    let s = sounding_index(voices, note, 0);
    if s < voices.len() {
        VoicePlan::Retrigger(s as usize)
    } else if voices.len() >= MAX_VOICES {
        let d = done_index(voices, 0);
        VoicePlan::Start { evict: Some(if d < voices.len() { d as usize } else { 0usize }) }
    } else {
        VoicePlan::Start { evict: None }
    }
}

pub fn plan_note_on(voices: &[VoiceSlot], note: u8) -> (r: VoicePlan)
    ensures
        r == spec_plan_note_on(voices@, note),
{
    let mut i: usize = 0;
    while i < voices.len()
        invariant
            0 <= i <= voices@.len(),
            sounding_index(voices@, note, 0) == sounding_index(voices@, note, i as int),
        decreases voices@.len() - i,
    {
        if voices[i].note == note && voices[i].stage != Stage::Done {
            return VoicePlan::Retrigger(i);
        }
        i = i + 1;
    }
    if voices.len() < MAX_VOICES {
        return VoicePlan::Start { evict: None };
    }
    let mut d: usize = 0;
    while d < voices.len()
        invariant
            0 <= d <= voices@.len(),
            voices@.len() >= MAX_VOICES,
            sounding_index(voices@, note, 0) == voices@.len(),
            done_index(voices@, 0) == done_index(voices@, d as int),
        decreases voices@.len() - d,
    {
        if voices[d].stage == Stage::Done {
            return VoicePlan::Start { evict: Some(d) };
        }
        d = d + 1;
    }
    VoicePlan::Start { evict: Some(0) }
}

/// Index of the first finished drum voice from `i` on.
pub open spec fn finished_index(finished: Seq<bool>, i: int) -> int
    decreases finished.len() - i,
{
    if i < 0 || i >= finished.len() {
        finished.len() as int
    } else if finished[i] {
        i
    } else {
        finished_index(finished, i + 1)
    }
}

/// The drum voice a new hit replaces when all drum voices are in use: the
/// first finished one, or else the oldest; none while there is room.
pub open spec fn spec_plan_drum_hit(finished: Seq<bool>) -> Option<usize> {
    if finished.len() >= MAX_DRUM_VOICES {
        Some(if finished_index(finished, 0) < finished.len() { finished_index(finished, 0) as usize } else { 0usize })
    } else {
        None::<usize>
    }
}

pub fn plan_drum_hit(finished: &[bool]) -> (r: Option<usize>)
    ensures
        r == spec_plan_drum_hit(finished@),
{
    if finished.len() < MAX_DRUM_VOICES {
        return None;
    }
    let mut i: usize = 0;
    while i < finished.len()
        invariant
            0 <= i <= finished@.len(),
            finished@.len() >= MAX_DRUM_VOICES,
            finished_index(finished@, 0) == finished_index(finished@, i as int),
        decreases finished@.len() - i,
    {
        if finished[i] {
            return Some(i);
        }
        i = i + 1;
    }
    Some(0)
}

/// A note-off releases the voices of that note that are still attacking,
/// decaying or sustaining; drum hits are one-shots and ignore it.
pub open spec fn spec_released_stage(slot: VoiceSlot, note: u8) -> Stage {
    if slot.note == note && (slot.stage == Stage::Attack || slot.stage == Stage::Decay || slot.stage == Stage::Sustain) {
        Stage::Release
    } else {
        slot.stage
    }
}

pub fn release_note(voices: &mut Vec<VoiceSlot>, note: u8)
    ensures
        final(voices)@.len() == old(voices)@.len(),
        forall|i: int|
            0 <= i < old(voices)@.len() ==> #[trigger] final(voices)@[i] == (VoiceSlot {
                note: old(voices)@[i].note,
                stage: spec_released_stage(old(voices)@[i], note),
            }),
{
    let mut i: usize = 0;
    while i < voices.len()
        invariant
            0 <= i <= voices@.len(),
            voices@.len() == old(voices)@.len(),
            forall|j: int|
                0 <= j < i ==> #[trigger] voices@[j] == (VoiceSlot {
                    note: old(voices)@[j].note,
                    stage: spec_released_stage(old(voices)@[j], note),
                }),
            forall|j: int| i <= j < voices@.len() ==> #[trigger] voices@[j] == old(voices)@[j],
        decreases voices@.len() - i,
    {
        let slot = voices[i];
        let stage = if slot.note == note && (slot.stage == Stage::Attack || slot.stage == Stage::Decay
            || slot.stage == Stage::Sustain) {
            Stage::Release
        } else {
            slot.stage
        };
        voices.set(i, VoiceSlot { note: slot.note, stage });
        i = i + 1;
    }
}

/// All notes off: every voice that has not finished starts its release.
pub fn release_all(voices: &mut Vec<VoiceSlot>)
    ensures
        final(voices)@.len() == old(voices)@.len(),
        forall|i: int|
            0 <= i < old(voices)@.len() ==> #[trigger] final(voices)@[i] == (VoiceSlot {
                note: old(voices)@[i].note,
                stage: if old(voices)@[i].stage == Stage::Done { Stage::Done } else { Stage::Release },
            }),
{
    let mut i: usize = 0;
    while i < voices.len()
        invariant
            0 <= i <= voices@.len(),
            voices@.len() == old(voices)@.len(),
            forall|j: int|
                0 <= j < i ==> #[trigger] voices@[j] == (VoiceSlot {
                    note: old(voices)@[j].note,
                    stage: if old(voices)@[j].stage == Stage::Done { Stage::Done } else { Stage::Release },
                }),
            forall|j: int| i <= j < voices@.len() ==> #[trigger] voices@[j] == old(voices)@[j],
        decreases voices@.len() - i,
    {
        let slot = voices[i];
        let stage = if slot.stage == Stage::Done { Stage::Done } else { Stage::Release };
        voices.set(i, VoiceSlot { note: slot.note, stage });
        i = i + 1;
    }
}

} // verus!

verus! {

/// The voices after a note-on is voiced by `plan`.
pub open spec fn apply_plan(voices: Seq<VoiceSlot>, plan: VoicePlan, note: u8) -> Seq<VoiceSlot> {
    let fresh = VoiceSlot { note, stage: Stage::Attack };
    match plan {
        VoicePlan::Retrigger(i) => voices.update(i as int, fresh),
        VoicePlan::Start { evict: Some(e) } => voices.remove(e as int).push(fresh),
        VoicePlan::Start { evict: None } => voices.push(fresh),
    }
}

/// Voicing a note-on never takes more than the polyphony, the note is then
/// sounding from its attack, and a note that was already sounding takes no
/// new voice.
pub proof fn lemma_note_on_keeps_polyphony(voices: Seq<VoiceSlot>, note: u8)
    requires
        voices.len() <= MAX_VOICES,
    ensures
        ({
            let plan = spec_plan_note_on(voices, note);
            let after = apply_plan(voices, plan, note);
            &&& after.len() <= MAX_VOICES
            &&& exists|i: int| 0 <= i < after.len() && after[i] == (VoiceSlot { note, stage: Stage::Attack })
            &&& sounding_index(voices, note, 0) < voices.len() ==> after.len() == voices.len()
        }),
{
    lemma_sounding_index(voices, note, 0);
    lemma_done_index(voices, 0);
    let plan = spec_plan_note_on(voices, note);
    let after = apply_plan(voices, plan, note);
    let fresh = VoiceSlot { note, stage: Stage::Attack };
    match plan {
        VoicePlan::Retrigger(i) => {
            assert(after[i as int] == fresh);
        },
        VoicePlan::Start { evict: _ } => {
            assert(after[after.len() - 1] == fresh);
        },
    }
}

proof fn lemma_sounding_index(voices: Seq<VoiceSlot>, note: u8, i: int)
    requires
        0 <= i <= voices.len(),
    ensures
        i <= sounding_index(voices, note, i) <= voices.len(),
    decreases voices.len() - i,
{
    if i < voices.len() && !(voices[i].note == note && voices[i].stage != Stage::Done) {
        lemma_sounding_index(voices, note, i + 1);
    }
}

proof fn lemma_done_index(voices: Seq<VoiceSlot>, i: int)
    requires
        0 <= i <= voices.len(),
    ensures
        i <= done_index(voices, i) <= voices.len(),
    decreases voices.len() - i,
{
    if i < voices.len() && voices[i].stage != Stage::Done {
        lemma_done_index(voices, i + 1);
    }
}


/// The drum voices (whether each has finished) after a hit: the voice the
/// plan names goes, and the new hit joins, still sounding, at the end.
pub open spec fn apply_drum_hit(finished: Seq<bool>) -> Seq<bool> {
    match spec_plan_drum_hit(finished) {
        Some(e) => finished.remove(e as int).push(false),
        None => finished.push(false),
    }
}

proof fn lemma_finished_index(finished: Seq<bool>, i: int)
    requires
        0 <= i <= finished.len(),
    ensures
        i <= finished_index(finished, i) <= finished.len(),
        finished_index(finished, i) < finished.len() ==> finished[finished_index(finished, i)],
        forall|j: int| i <= j < finished_index(finished, i) ==> !finished[j],
    decreases finished.len() - i,
{
    if i < finished.len() && !finished[i] {
        lemma_finished_index(finished, i + 1);
    }
}

/// A drum hit never takes the kit past its twelve voices; when the kit is
/// full the first finished voice makes room, or the oldest when none has
/// finished.
pub proof fn lemma_drum_hit_keeps_pool(finished: Seq<bool>)
    requires
        finished.len() <= MAX_DRUM_VOICES,
    ensures
        apply_drum_hit(finished).len() <= MAX_DRUM_VOICES,
        apply_drum_hit(finished).len() > 0 && !apply_drum_hit(finished).last(),
        spec_plan_drum_hit(finished) matches Some(e) ==> {
            &&& e < finished.len()
            &&& forall|j: int| 0 <= j < e ==> !finished[j]
            &&& (exists|j: int| 0 <= j < finished.len() && finished[j]) ==> finished[e as int]
        },
        finished.len() < MAX_DRUM_VOICES ==> apply_drum_hit(finished) == finished.push(false),
{
    lemma_finished_index(finished, 0);
    let f = finished_index(finished, 0);
    if finished.len() >= MAX_DRUM_VOICES && f >= finished.len() {
        assert forall|j: int| 0 <= j < finished.len() implies !finished[j] by {}
    }
}

/// The voices (melodic, and drum by whether each has finished) after a
/// note-on: a percussion note adds a drum hit, or nothing when it selects no
/// instrument; any other note is voiced as the melodic plan says.
pub open spec fn note_on_pools(voices: Seq<VoiceSlot>, drums: Seq<bool>, note: u8, channel: u8) -> (Seq<VoiceSlot>, Seq<bool>) {
    match spec_note_target(note, channel) {
        NoteTarget::Drum(_) => (voices, apply_drum_hit(drums)),
        NoteTarget::Silent => (voices, drums),
        NoteTarget::Melodic => (apply_plan(voices, spec_plan_note_on(voices, note), note), drums),
    }
}

/// A note-on keeps both pools within their polyphony (16 melodic, 12 drum
/// voices); a percussion note never touches the melodic voices and one
/// outside the kit changes nothing; any other note never touches the drums;
/// a melodic note already sounding restarts its attack without a new voice.
pub proof fn lemma_note_on_pools(voices: Seq<VoiceSlot>, drums: Seq<bool>, note: u8, channel: u8)
    requires
        voices.len() <= MAX_VOICES,
        drums.len() <= MAX_DRUM_VOICES,
    ensures
        note_on_pools(voices, drums, note, channel).0.len() <= MAX_VOICES,
        note_on_pools(voices, drums, note, channel).1.len() <= MAX_DRUM_VOICES,
        channel == DRUM_CHANNEL ==> note_on_pools(voices, drums, note, channel).0 == voices,
        channel == DRUM_CHANNEL && !(35 <= note <= 81) ==> note_on_pools(voices, drums, note, channel) == (voices, drums),
        channel != DRUM_CHANNEL ==> note_on_pools(voices, drums, note, channel).1 == drums,
        channel != DRUM_CHANNEL && sounding_index(voices, note, 0) < voices.len() ==> {
            let i = sounding_index(voices, note, 0);
            &&& note_on_pools(voices, drums, note, channel).0.len() == voices.len()
            &&& note_on_pools(voices, drums, note, channel).0[i] == (VoiceSlot { note, stage: Stage::Attack })
        },
{
    lemma_note_on_keeps_polyphony(voices, note);
    lemma_drum_hit_keeps_pool(drums);
    lemma_sounding_index(voices, note, 0);
    if channel == DRUM_CHANNEL && !(35 <= note <= 81) {
        assert(spec_midi_note_to_drum_type(note) is None);
    }
}

} // verus!
