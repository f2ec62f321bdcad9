use k2_viewer::drums::{midi_note_to_drum_type, DrumSampler, DrumType};
use k2_viewer::synth::{
    note_target, plan_drum_hit, plan_note_on, release_all, release_note, NoteTarget, Stage, VoicePlan,
    VoiceSlot, Waveform, DRUM_CHANNEL, MAX_DRUM_VOICES, MAX_VOICES,
};

fn slot(note: u8, stage: Stage) -> VoiceSlot {
    VoiceSlot { note, stage }
}

fn voice_after(voices: &mut Vec<VoiceSlot>, plan: VoicePlan, note: u8) {
    let fresh = slot(note, Stage::Attack);
    match plan {
        VoicePlan::Retrigger(i) => voices[i] = fresh,
        VoicePlan::Start { evict: Some(e) } => {
            voices.remove(e);
            voices.push(fresh);
        }
        VoicePlan::Start { evict: None } => voices.push(fresh),
    }
}

#[test]
fn waveform_selection_does_not_replace_the_drum_engine() {
    let waveform = Waveform::Saw;
    assert_ne!(waveform, Waveform::default());
    assert_eq!(note_target(36, DRUM_CHANNEL), NoteTarget::Drum(DrumType::BassDrum1));
    assert_eq!(note_target(36, 0), NoteTarget::Melodic);
}

#[test]
fn live_melodic_notes_follow_press_and_release() {
    let mut voices: Vec<VoiceSlot> = Vec::new();
    assert_eq!(note_target(60, 0), NoteTarget::Melodic);
    let plan = plan_note_on(&voices, 60);
    assert_eq!(plan, VoicePlan::Start { evict: None });
    voice_after(&mut voices, plan, 60);

    assert_eq!(voices.len(), 1);
    assert!(matches!(voices[0].stage, Stage::Attack));

    release_note(&mut voices, 60);
    assert!(matches!(voices[0].stage, Stage::Release));
}

#[test]
fn percussion_notes_outside_the_kit_stay_silent() {
    assert_eq!(note_target(34, DRUM_CHANNEL), NoteTarget::Silent);
    assert_eq!(note_target(82, DRUM_CHANNEL), NoteTarget::Silent);
    assert_eq!(note_target(81, DRUM_CHANNEL), NoteTarget::Drum(DrumType::OpenTriangle));
    assert_eq!(note_target(35, DRUM_CHANNEL), NoteTarget::Drum(DrumType::AcousticBassDrum));
}

#[test]
fn a_sounding_note_is_retriggered_not_doubled() {
    let voices = vec![slot(60, Stage::Sustain), slot(64, Stage::Release), slot(67, Stage::Done)];
    assert_eq!(plan_note_on(&voices, 64), VoicePlan::Retrigger(1));
    // A finished voice of the same note does not count as sounding.
    assert_eq!(plan_note_on(&voices, 67), VoicePlan::Start { evict: None });
}

#[test]
fn a_full_pool_evicts_a_finished_voice_or_else_the_oldest() {
    let mut voices: Vec<VoiceSlot> = (0..MAX_VOICES as u8).map(|n| slot(40 + n, Stage::Sustain)).collect();
    assert_eq!(plan_note_on(&voices, 100), VoicePlan::Start { evict: Some(0) });
    voices[5].stage = Stage::Done;
    assert_eq!(plan_note_on(&voices, 100), VoicePlan::Start { evict: Some(5) });
    let plan = plan_note_on(&voices, 100);
    voice_after(&mut voices, plan, 100);
    assert_eq!(voices.len(), MAX_VOICES);
    assert_eq!(voices[MAX_VOICES - 1], slot(100, Stage::Attack));
}

#[test]
fn drum_hits_make_room_only_when_the_kit_is_full() {
    let mut finished = vec![false; MAX_DRUM_VOICES - 1];
    assert_eq!(plan_drum_hit(&finished), None);
    finished.push(false);
    assert_eq!(plan_drum_hit(&finished), Some(0));
    finished[7] = true;
    finished[9] = true;
    assert_eq!(plan_drum_hit(&finished), Some(7));
}

#[test]
fn note_off_releases_only_live_voices_of_that_note() {
    let mut voices = vec![
        slot(60, Stage::Attack),
        slot(60, Stage::Decay),
        slot(62, Stage::Sustain),
        slot(60, Stage::Done),
        slot(60, Stage::Release),
    ];
    release_note(&mut voices, 60);
    assert_eq!(
        voices,
        vec![
            slot(60, Stage::Release),
            slot(60, Stage::Release),
            slot(62, Stage::Sustain),
            slot(60, Stage::Done),
            slot(60, Stage::Release),
        ]
    );
    release_all(&mut voices);
    assert_eq!(voices[2], slot(62, Stage::Release));
    assert_eq!(voices[3], slot(60, Stage::Done));
}

#[test]
fn gm_percussion_notes_select_their_instrument() {
    assert_eq!(midi_note_to_drum_type(36), Some(DrumType::BassDrum1));
    assert_eq!(midi_note_to_drum_type(38), Some(DrumType::AcousticSnare));
    assert_eq!(midi_note_to_drum_type(42), Some(DrumType::ClosedHiHat));
    assert_eq!(midi_note_to_drum_type(34), None);
    assert_eq!(midi_note_to_drum_type(82), None);
}

#[test]
fn a_new_sampler_is_silent_until_triggered() {
    let mut s = DrumSampler::new();
    assert!(s.is_finished());
    assert_eq!(s.next_sample(12345), 0);
    let d = DrumSampler::default();
    assert!(d.is_finished());

    s.trigger();
    assert!(!s.is_finished());
    // The bass drum starts at 150 Hz (increment 13 416 450) and sweeps down.
    assert_eq!(s.phase_increments(), (13_416_450, 3_130_505, 0));
    assert_eq!(s.next_phase(), 13_416_450);
}

#[test]
fn a_pure_tone_sample_is_the_sine_under_the_envelope() {
    let mut s = DrumSampler::new();
    s.set_drum_type(DrumType::RideBell);
    s.trigger();
    assert_eq!(s.next_phase(), 62_610_100);
    // envelope: 0xFFFF * 65507 >> 16 = 65506; sample: 10000 * 65506 >> 16.
    assert_eq!(s.next_sample(10_000), 9_995);
    assert_eq!(s.next_phase(), 125_220_200);
}

#[test]
fn a_drum_voice_finishes_within_its_length() {
    let mut s = DrumSampler::new();
    s.set_drum_type(DrumType::Claves);
    s.trigger();
    let mut played = 0u32;
    while !s.is_finished() {
        assert!(s.next_step_fits());
        s.next_sample(0);
        played += 1;
        assert!(played <= 240);
    }
    assert!(played > 0);
}

#[test]
fn the_tambourine_plays_raw_noise() {
    let mut s = DrumSampler::new();
    s.set_drum_type(DrumType::Tambourine);
    s.trigger();
    // Raw noise under the envelope, not the difference of two noise samples.
    assert_eq!(s.next_sample(0), 17_584);
    assert_eq!(s.next_sample(0), 25_064);
    assert_eq!(s.next_sample(0), -3_754);
}

#[test]
fn a_second_trigger_changes_nothing() {
    let mut a = DrumSampler::new();
    a.set_drum_type(DrumType::OpenHiHat);
    a.trigger();
    a.next_sample(100);
    a.trigger();
    let mut b = DrumSampler::new();
    b.set_drum_type(DrumType::OpenHiHat);
    b.trigger();
    for _ in 0..50 {
        assert_eq!(a.next_sample(0), b.next_sample(0));
    }
}
