//! Full GM1 percussion synthesis (notes 35-81), tuned for a 90s 808/909
//! character. The fixed-point phase increments are calibrated for a 48 kHz
//! sample clock. All state is integer: the only non-integer step of a sample,
//! the Bhaskara sine of the oscillator phase, is supplied by the caller.
use vstd::prelude::*;

verus! {

#[derive(Copy, Clone, Debug, PartialEq, Eq, Structural)]
pub enum DrumType {
    AcousticBassDrum, // 35
    BassDrum1, // 36
    SideStick, // 37
    AcousticSnare, // 38
    HandClap, // 39
    ElectricSnare, // 40
    LowFloorTom, // 41
    ClosedHiHat, // 42
    HighFloorTom, // 43
    PedalHiHat, // 44
    LowTom, // 45
    OpenHiHat, // 46
    LowMidTom, // 47
    HiMidTom, // 48
    CrashCymbal1, // 49
    HighTom, // 50
    RideCymbal1, // 51
    ChineseCymbal, // 52
    RideBell, // 53
    Tambourine, // 54
    SplashCymbal, // 55
    Cowbell, // 56
    CrashCymbal2, // 57
    Vibraslap, // 58
    RideCymbal2, // 59
    HiBongo, // 60
    LowBongo, // 61
    MuteHiConga, // 62
    OpenHiConga, // 63
    LowConga, // 64
    HighTimbale, // 65
    LowTimbale, // 66
    HighAgogo, // 67
    LowAgogo, // 68
    Cabasa, // 69
    Maracas, // 70
    ShortWhistle, // 71
    LongWhistle, // 72
    ShortGuiro, // 73
    LongGuiro, // 74
    Claves, // 75
    HiWoodBlock, // 76
    LowWoodBlock, // 77
    MuteCuica, // 78
    OpenCuica, // 79
    MuteTriangle, // 80
    OpenTriangle, // 81
}

/// Synthesis engines, assigned on trigger and dispatched per sample.
#[derive(Copy, Clone, Debug, PartialEq, Eq, Structural)]
pub enum SynthEngine {
    /// Bhaskara sine + exponential downward pitch sweep + optional click transient.
    Kick,
    /// Bhaskara sine body + white-noise mix + initial crack burst.
    Snare,
    /// Four rapid noise bursts then decaying noise tail (808-style clap).
    Clap,
    /// HP-filtered LFSR noise (metallic character for cymbals/hats).
    MetallicNoise,
    /// Raw LFSR noise (short transient sounds: maracas, tambourine).
    PureNoise,
    /// Bhaskara sine at tuned pitch with slight downward sweep.
    Tom,
    /// Bhaskara sine + noise mix (timbales, congas with bite).
    TomNoise,
    /// Bhaskara sine only (agogos, whistles, triangles, ride bell).
    PureTone,
    /// Short square-wave burst (sticks, wood blocks, claves).
    Click,
    /// Two detuned square oscillators — classic 808 cowbell.
    Cowbell,
    /// Click transient → gated rattle noise (vibraslap).
    Vibraslap,
    /// Periodically gated noise (guiro scrape).
    Guiro,
    /// AM-modulated noise (cabasa rattle).
    Cabasa,
    /// Bhaskara sine with upward pitch sweep (cuica).
    Cuica,
}

/// The per-instrument settings a trigger loads.
#[derive(Copy, Clone, Debug, PartialEq, Eq)]
pub struct DrumParams {
    pub engine: SynthEngine,
    pub max_samples: u32,
    pub phase_inc: u32,
    pub target_phase_inc: u32,
    pub pitch_decay: u16,
    pub env_decay: u16,
    pub noise_mix: u8,
    pub phase2_inc: u32,
    pub noise_seed: u16,
}

/// Settings of each instrument (phase_inc = freq_hz * 89_443 at 48 kHz).
pub open spec fn drum_params(t: DrumType) -> DrumParams {
    match t {
        DrumType::AcousticBassDrum => DrumParams { engine: SynthEngine::Kick, max_samples: 19_200, phase_inc: 8_944_300, target_phase_inc: 2_504_404, pitch_decay: 65_470, env_decay: 65_524, noise_mix: 0, phase2_inc: 0, noise_seed: 0xACE1 },
        DrumType::BassDrum1 => DrumParams { engine: SynthEngine::Kick, max_samples: 9_600, phase_inc: 13_416_450, target_phase_inc: 3_130_505, pitch_decay: 65_430, env_decay: 65_509, noise_mix: 0, phase2_inc: 0, noise_seed: 0xACE1 },
        DrumType::SideStick => DrumParams { engine: SynthEngine::Click, max_samples: 480, phase_inc: 134_164_500, target_phase_inc: 0, pitch_decay: 0, env_decay: 65_000, noise_mix: 4, phase2_inc: 0, noise_seed: 0xACE1 },
        DrumType::AcousticSnare => DrumParams { engine: SynthEngine::Snare, max_samples: 4_320, phase_inc: 17_888_600, target_phase_inc: 0, pitch_decay: 0, env_decay: 65_494, noise_mix: 11, phase2_inc: 0, noise_seed: 0xACE1 },
        DrumType::HandClap => DrumParams { engine: SynthEngine::Clap, max_samples: 4_800, phase_inc: 0, target_phase_inc: 0, pitch_decay: 0, env_decay: 65_480, noise_mix: 0, phase2_inc: 0, noise_seed: 0xACE1 },
        DrumType::ElectricSnare => DrumParams { engine: SynthEngine::Snare, max_samples: 2_400, phase_inc: 22_360_750, target_phase_inc: 0, pitch_decay: 0, env_decay: 65_435, noise_mix: 13, phase2_inc: 0, noise_seed: 0xACE1 },
        DrumType::LowFloorTom => DrumParams { engine: SynthEngine::Tom, max_samples: 8_640, phase_inc: 7_155_440, target_phase_inc: 6_500_000, pitch_decay: 65_530, env_decay: 65_513, noise_mix: 0, phase2_inc: 0, noise_seed: 0xACE1 },
        DrumType::HighFloorTom => DrumParams { engine: SynthEngine::Tom, max_samples: 8_640, phase_inc: 8_497_085, target_phase_inc: 7_800_000, pitch_decay: 65_530, env_decay: 65_513, noise_mix: 0, phase2_inc: 0, noise_seed: 0xACE1 },
        DrumType::LowTom => DrumParams { engine: SynthEngine::Tom, max_samples: 9_600, phase_inc: 9_838_730, target_phase_inc: 9_000_000, pitch_decay: 65_530, env_decay: 65_515, noise_mix: 0, phase2_inc: 0, noise_seed: 0xACE1 },
        DrumType::LowMidTom => DrumParams { engine: SynthEngine::Tom, max_samples: 9_600, phase_inc: 11_627_590, target_phase_inc: 10_600_000, pitch_decay: 65_530, env_decay: 65_515, noise_mix: 0, phase2_inc: 0, noise_seed: 0xACE1 },
        DrumType::HiMidTom => DrumParams { engine: SynthEngine::Tom, max_samples: 8_160, phase_inc: 13_863_665, target_phase_inc: 12_600_000, pitch_decay: 65_530, env_decay: 65_511, noise_mix: 0, phase2_inc: 0, noise_seed: 0xACE1 },
        DrumType::HighTom => DrumParams { engine: SynthEngine::Tom, max_samples: 7_200, phase_inc: 16_546_955, target_phase_inc: 15_000_000, pitch_decay: 65_530, env_decay: 65_507, noise_mix: 0, phase2_inc: 0, noise_seed: 0xACE1 },
        DrumType::ClosedHiHat => DrumParams { engine: SynthEngine::MetallicNoise, max_samples: 768, phase_inc: 0, target_phase_inc: 0, pitch_decay: 0, env_decay: 64_256, noise_mix: 16, phase2_inc: 0, noise_seed: 0xACE1 },
        DrumType::PedalHiHat => DrumParams { engine: SynthEngine::MetallicNoise, max_samples: 1_152, phase_inc: 0, target_phase_inc: 0, pitch_decay: 0, env_decay: 64_768, noise_mix: 16, phase2_inc: 0, noise_seed: 0xACE1 },
        DrumType::OpenHiHat => DrumParams { engine: SynthEngine::MetallicNoise, max_samples: 10_560, phase_inc: 0, target_phase_inc: 0, pitch_decay: 0, env_decay: 65_512, noise_mix: 16, phase2_inc: 0, noise_seed: 0xACE1 },
        DrumType::CrashCymbal1 => DrumParams { engine: SynthEngine::MetallicNoise, max_samples: 28_800, phase_inc: 0, target_phase_inc: 0, pitch_decay: 0, env_decay: 65_530, noise_mix: 16, phase2_inc: 0, noise_seed: 0xACE1 },
        DrumType::RideCymbal1 => DrumParams { engine: SynthEngine::MetallicNoise, max_samples: 14_400, phase_inc: 0, target_phase_inc: 0, pitch_decay: 0, env_decay: 65_523, noise_mix: 16, phase2_inc: 0, noise_seed: 0xACE1 },
        DrumType::ChineseCymbal => DrumParams { engine: SynthEngine::MetallicNoise, max_samples: 12_000, phase_inc: 0, target_phase_inc: 0, pitch_decay: 0, env_decay: 65_521, noise_mix: 16, phase2_inc: 0, noise_seed: 0xACE1 },
        DrumType::RideBell => DrumParams { engine: SynthEngine::PureTone, max_samples: 7_200, phase_inc: 62_610_100, target_phase_inc: 0, pitch_decay: 0, env_decay: 65_507, noise_mix: 0, phase2_inc: 0, noise_seed: 0xACE1 },
        DrumType::Tambourine => DrumParams { engine: SynthEngine::PureNoise, max_samples: 2_400, phase_inc: 0, target_phase_inc: 0, pitch_decay: 0, env_decay: 65_360, noise_mix: 16, phase2_inc: 0, noise_seed: 0xACE1 },
        DrumType::SplashCymbal => DrumParams { engine: SynthEngine::MetallicNoise, max_samples: 6_000, phase_inc: 0, target_phase_inc: 0, pitch_decay: 0, env_decay: 65_505, noise_mix: 16, phase2_inc: 0, noise_seed: 0xACE1 },
        DrumType::Cowbell => DrumParams { engine: SynthEngine::Cowbell, max_samples: 2_880, phase_inc: 50_267_006, target_phase_inc: 0, pitch_decay: 0, env_decay: 65_350, noise_mix: 0, phase2_inc: 75_579_335, noise_seed: 0xACE1 },
        DrumType::CrashCymbal2 => DrumParams { engine: SynthEngine::MetallicNoise, max_samples: 24_000, phase_inc: 0, target_phase_inc: 0, pitch_decay: 0, env_decay: 65_528, noise_mix: 16, phase2_inc: 0, noise_seed: 0x5A3C },
        DrumType::Vibraslap => DrumParams { engine: SynthEngine::Vibraslap, max_samples: 8_000, phase_inc: 134_164_500, target_phase_inc: 0, pitch_decay: 0, env_decay: 65_510, noise_mix: 0, phase2_inc: 4_472_150, noise_seed: 0xACE1 },
        DrumType::RideCymbal2 => DrumParams { engine: SynthEngine::MetallicNoise, max_samples: 12_000, phase_inc: 0, target_phase_inc: 0, pitch_decay: 0, env_decay: 65_521, noise_mix: 16, phase2_inc: 0, noise_seed: 0x7B2E },
        DrumType::HiBongo => DrumParams { engine: SynthEngine::Tom, max_samples: 2_400, phase_inc: 35_777_200, target_phase_inc: 32_000_000, pitch_decay: 65_520, env_decay: 65_360, noise_mix: 3, phase2_inc: 0, noise_seed: 0xACE1 },
        DrumType::LowBongo => DrumParams { engine: SynthEngine::Tom, max_samples: 3_600, phase_inc: 23_255_180, target_phase_inc: 20_800_000, pitch_decay: 65_522, env_decay: 65_475, noise_mix: 3, phase2_inc: 0, noise_seed: 0xACE1 },
        DrumType::MuteHiConga => DrumParams { engine: SynthEngine::Tom, max_samples: 1_200, phase_inc: 28_174_545, target_phase_inc: 26_000_000, pitch_decay: 65_510, env_decay: 65_200, noise_mix: 2, phase2_inc: 0, noise_seed: 0xACE1 },
        DrumType::OpenHiConga => DrumParams { engine: SynthEngine::Tom, max_samples: 2_976, phase_inc: 28_174_545, target_phase_inc: 26_000_000, pitch_decay: 65_520, env_decay: 65_450, noise_mix: 2, phase2_inc: 0, noise_seed: 0xACE1 },
        DrumType::LowConga => DrumParams { engine: SynthEngine::Tom, max_samples: 3_600, phase_inc: 17_888_600, target_phase_inc: 16_000_000, pitch_decay: 65_522, env_decay: 65_475, noise_mix: 2, phase2_inc: 0, noise_seed: 0xACE1 },
        DrumType::HighTimbale => DrumParams { engine: SynthEngine::TomNoise, max_samples: 2_400, phase_inc: 50_088_080, target_phase_inc: 44_000_000, pitch_decay: 65_510, env_decay: 65_360, noise_mix: 6, phase2_inc: 0, noise_seed: 0xACE1 },
        DrumType::LowTimbale => DrumParams { engine: SynthEngine::TomNoise, max_samples: 3_000, phase_inc: 33_093_910, target_phase_inc: 29_000_000, pitch_decay: 65_515, env_decay: 65_448, noise_mix: 6, phase2_inc: 0, noise_seed: 0xACE1 },
        DrumType::HighAgogo => DrumParams { engine: SynthEngine::PureTone, max_samples: 2_400, phase_inc: 78_709_840, target_phase_inc: 0, pitch_decay: 0, env_decay: 65_360, noise_mix: 0, phase2_inc: 0, noise_seed: 0xACE1 },
        DrumType::LowAgogo => DrumParams { engine: SynthEngine::PureTone, max_samples: 3_000, phase_inc: 59_032_380, target_phase_inc: 0, pitch_decay: 0, env_decay: 65_448, noise_mix: 0, phase2_inc: 0, noise_seed: 0xACE1 },
        DrumType::ShortWhistle => DrumParams { engine: SynthEngine::PureTone, max_samples: 4_800, phase_inc: 187_184_099, target_phase_inc: 0, pitch_decay: 0, env_decay: 65_500, noise_mix: 0, phase2_inc: 0, noise_seed: 0xACE1 },
        DrumType::LongWhistle => DrumParams { engine: SynthEngine::PureTone, max_samples: 12_000, phase_inc: 187_184_099, target_phase_inc: 0, pitch_decay: 0, env_decay: 65_521, noise_mix: 0, phase2_inc: 0, noise_seed: 0xACE1 },
        DrumType::MuteTriangle => DrumParams { engine: SynthEngine::PureTone, max_samples: 1_200, phase_inc: 314_839_360, target_phase_inc: 0, pitch_decay: 0, env_decay: 65_200, noise_mix: 0, phase2_inc: 0, noise_seed: 0xACE1 },
        DrumType::OpenTriangle => DrumParams { engine: SynthEngine::PureTone, max_samples: 28_800, phase_inc: 314_839_360, target_phase_inc: 0, pitch_decay: 0, env_decay: 65_530, noise_mix: 0, phase2_inc: 0, noise_seed: 0xACE1 },
        DrumType::Maracas => DrumParams { engine: SynthEngine::PureNoise, max_samples: 960, phase_inc: 0, target_phase_inc: 0, pitch_decay: 0, env_decay: 65_100, noise_mix: 16, phase2_inc: 0, noise_seed: 0xACE1 },
        DrumType::Claves => DrumParams { engine: SynthEngine::Click, max_samples: 240, phase_inc: 178_886_000, target_phase_inc: 0, pitch_decay: 0, env_decay: 64_800, noise_mix: 0, phase2_inc: 0, noise_seed: 0xACE1 },
        DrumType::HiWoodBlock => DrumParams { engine: SynthEngine::Click, max_samples: 1_200, phase_inc: 67_082_250, target_phase_inc: 0, pitch_decay: 0, env_decay: 65_200, noise_mix: 0, phase2_inc: 0, noise_seed: 0xACE1 },
        DrumType::LowWoodBlock => DrumParams { engine: SynthEngine::Click, max_samples: 1_200, phase_inc: 53_665_800, target_phase_inc: 0, pitch_decay: 0, env_decay: 65_200, noise_mix: 0, phase2_inc: 0, noise_seed: 0xACE1 },
        DrumType::ShortGuiro => DrumParams { engine: SynthEngine::Guiro, max_samples: 2_400, phase_inc: 0, target_phase_inc: 0, pitch_decay: 0, env_decay: 65_450, noise_mix: 0, phase2_inc: 14_311_040, noise_seed: 0xACE1 },
        DrumType::LongGuiro => DrumParams { engine: SynthEngine::Guiro, max_samples: 6_000, phase_inc: 0, target_phase_inc: 0, pitch_decay: 0, env_decay: 65_505, noise_mix: 0, phase2_inc: 7_155_440, noise_seed: 0xACE1 },
        DrumType::Cabasa => DrumParams { engine: SynthEngine::Cabasa, max_samples: 4_800, phase_inc: 0, target_phase_inc: 0, pitch_decay: 0, env_decay: 65_500, noise_mix: 0, phase2_inc: 1_788_860, noise_seed: 0xACE1 },
        DrumType::MuteCuica => DrumParams { engine: SynthEngine::Cuica, max_samples: 2_400, phase_inc: 26_832_900, target_phase_inc: 62_610_100, pitch_decay: 0, env_decay: 65_360, noise_mix: 0, phase2_inc: 14_907, noise_seed: 0xACE1 },
        DrumType::OpenCuica => DrumParams { engine: SynthEngine::Cuica, max_samples: 6_000, phase_inc: 26_832_900, target_phase_inc: 62_610_100, pitch_decay: 0, env_decay: 65_505, noise_mix: 0, phase2_inc: 5_963, noise_seed: 0xACE1 },
    }
}

/// Looks up the settings of an instrument.
pub fn params_of(t: DrumType) -> (p: DrumParams)
    ensures
        p == drum_params(t),
        p.noise_mix <= 16,
        p.noise_seed != 0,
        0 < p.max_samples <= 28_800,
{
    match t {
        DrumType::AcousticBassDrum => DrumParams { engine: SynthEngine::Kick, max_samples: 19_200, phase_inc: 8_944_300, target_phase_inc: 2_504_404, pitch_decay: 65_470, env_decay: 65_524, noise_mix: 0, phase2_inc: 0, noise_seed: 0xACE1 },
        DrumType::BassDrum1 => DrumParams { engine: SynthEngine::Kick, max_samples: 9_600, phase_inc: 13_416_450, target_phase_inc: 3_130_505, pitch_decay: 65_430, env_decay: 65_509, noise_mix: 0, phase2_inc: 0, noise_seed: 0xACE1 },
        DrumType::SideStick => DrumParams { engine: SynthEngine::Click, max_samples: 480, phase_inc: 134_164_500, target_phase_inc: 0, pitch_decay: 0, env_decay: 65_000, noise_mix: 4, phase2_inc: 0, noise_seed: 0xACE1 },
        DrumType::AcousticSnare => DrumParams { engine: SynthEngine::Snare, max_samples: 4_320, phase_inc: 17_888_600, target_phase_inc: 0, pitch_decay: 0, env_decay: 65_494, noise_mix: 11, phase2_inc: 0, noise_seed: 0xACE1 },
        DrumType::HandClap => DrumParams { engine: SynthEngine::Clap, max_samples: 4_800, phase_inc: 0, target_phase_inc: 0, pitch_decay: 0, env_decay: 65_480, noise_mix: 0, phase2_inc: 0, noise_seed: 0xACE1 },
        DrumType::ElectricSnare => DrumParams { engine: SynthEngine::Snare, max_samples: 2_400, phase_inc: 22_360_750, target_phase_inc: 0, pitch_decay: 0, env_decay: 65_435, noise_mix: 13, phase2_inc: 0, noise_seed: 0xACE1 },
        DrumType::LowFloorTom => DrumParams { engine: SynthEngine::Tom, max_samples: 8_640, phase_inc: 7_155_440, target_phase_inc: 6_500_000, pitch_decay: 65_530, env_decay: 65_513, noise_mix: 0, phase2_inc: 0, noise_seed: 0xACE1 },
        DrumType::HighFloorTom => DrumParams { engine: SynthEngine::Tom, max_samples: 8_640, phase_inc: 8_497_085, target_phase_inc: 7_800_000, pitch_decay: 65_530, env_decay: 65_513, noise_mix: 0, phase2_inc: 0, noise_seed: 0xACE1 },
        DrumType::LowTom => DrumParams { engine: SynthEngine::Tom, max_samples: 9_600, phase_inc: 9_838_730, target_phase_inc: 9_000_000, pitch_decay: 65_530, env_decay: 65_515, noise_mix: 0, phase2_inc: 0, noise_seed: 0xACE1 },
        DrumType::LowMidTom => DrumParams { engine: SynthEngine::Tom, max_samples: 9_600, phase_inc: 11_627_590, target_phase_inc: 10_600_000, pitch_decay: 65_530, env_decay: 65_515, noise_mix: 0, phase2_inc: 0, noise_seed: 0xACE1 },
        DrumType::HiMidTom => DrumParams { engine: SynthEngine::Tom, max_samples: 8_160, phase_inc: 13_863_665, target_phase_inc: 12_600_000, pitch_decay: 65_530, env_decay: 65_511, noise_mix: 0, phase2_inc: 0, noise_seed: 0xACE1 },
        DrumType::HighTom => DrumParams { engine: SynthEngine::Tom, max_samples: 7_200, phase_inc: 16_546_955, target_phase_inc: 15_000_000, pitch_decay: 65_530, env_decay: 65_507, noise_mix: 0, phase2_inc: 0, noise_seed: 0xACE1 },
        DrumType::ClosedHiHat => DrumParams { engine: SynthEngine::MetallicNoise, max_samples: 768, phase_inc: 0, target_phase_inc: 0, pitch_decay: 0, env_decay: 64_256, noise_mix: 16, phase2_inc: 0, noise_seed: 0xACE1 },
        DrumType::PedalHiHat => DrumParams { engine: SynthEngine::MetallicNoise, max_samples: 1_152, phase_inc: 0, target_phase_inc: 0, pitch_decay: 0, env_decay: 64_768, noise_mix: 16, phase2_inc: 0, noise_seed: 0xACE1 },
        DrumType::OpenHiHat => DrumParams { engine: SynthEngine::MetallicNoise, max_samples: 10_560, phase_inc: 0, target_phase_inc: 0, pitch_decay: 0, env_decay: 65_512, noise_mix: 16, phase2_inc: 0, noise_seed: 0xACE1 },
        DrumType::CrashCymbal1 => DrumParams { engine: SynthEngine::MetallicNoise, max_samples: 28_800, phase_inc: 0, target_phase_inc: 0, pitch_decay: 0, env_decay: 65_530, noise_mix: 16, phase2_inc: 0, noise_seed: 0xACE1 },
        DrumType::RideCymbal1 => DrumParams { engine: SynthEngine::MetallicNoise, max_samples: 14_400, phase_inc: 0, target_phase_inc: 0, pitch_decay: 0, env_decay: 65_523, noise_mix: 16, phase2_inc: 0, noise_seed: 0xACE1 },
        DrumType::ChineseCymbal => DrumParams { engine: SynthEngine::MetallicNoise, max_samples: 12_000, phase_inc: 0, target_phase_inc: 0, pitch_decay: 0, env_decay: 65_521, noise_mix: 16, phase2_inc: 0, noise_seed: 0xACE1 },
        DrumType::RideBell => DrumParams { engine: SynthEngine::PureTone, max_samples: 7_200, phase_inc: 62_610_100, target_phase_inc: 0, pitch_decay: 0, env_decay: 65_507, noise_mix: 0, phase2_inc: 0, noise_seed: 0xACE1 },
        DrumType::Tambourine => DrumParams { engine: SynthEngine::PureNoise, max_samples: 2_400, phase_inc: 0, target_phase_inc: 0, pitch_decay: 0, env_decay: 65_360, noise_mix: 16, phase2_inc: 0, noise_seed: 0xACE1 },
        DrumType::SplashCymbal => DrumParams { engine: SynthEngine::MetallicNoise, max_samples: 6_000, phase_inc: 0, target_phase_inc: 0, pitch_decay: 0, env_decay: 65_505, noise_mix: 16, phase2_inc: 0, noise_seed: 0xACE1 },
        DrumType::Cowbell => DrumParams { engine: SynthEngine::Cowbell, max_samples: 2_880, phase_inc: 50_267_006, target_phase_inc: 0, pitch_decay: 0, env_decay: 65_350, noise_mix: 0, phase2_inc: 75_579_335, noise_seed: 0xACE1 },
        DrumType::CrashCymbal2 => DrumParams { engine: SynthEngine::MetallicNoise, max_samples: 24_000, phase_inc: 0, target_phase_inc: 0, pitch_decay: 0, env_decay: 65_528, noise_mix: 16, phase2_inc: 0, noise_seed: 0x5A3C },
        DrumType::Vibraslap => DrumParams { engine: SynthEngine::Vibraslap, max_samples: 8_000, phase_inc: 134_164_500, target_phase_inc: 0, pitch_decay: 0, env_decay: 65_510, noise_mix: 0, phase2_inc: 4_472_150, noise_seed: 0xACE1 },
        DrumType::RideCymbal2 => DrumParams { engine: SynthEngine::MetallicNoise, max_samples: 12_000, phase_inc: 0, target_phase_inc: 0, pitch_decay: 0, env_decay: 65_521, noise_mix: 16, phase2_inc: 0, noise_seed: 0x7B2E },
        DrumType::HiBongo => DrumParams { engine: SynthEngine::Tom, max_samples: 2_400, phase_inc: 35_777_200, target_phase_inc: 32_000_000, pitch_decay: 65_520, env_decay: 65_360, noise_mix: 3, phase2_inc: 0, noise_seed: 0xACE1 },
        DrumType::LowBongo => DrumParams { engine: SynthEngine::Tom, max_samples: 3_600, phase_inc: 23_255_180, target_phase_inc: 20_800_000, pitch_decay: 65_522, env_decay: 65_475, noise_mix: 3, phase2_inc: 0, noise_seed: 0xACE1 },
        DrumType::MuteHiConga => DrumParams { engine: SynthEngine::Tom, max_samples: 1_200, phase_inc: 28_174_545, target_phase_inc: 26_000_000, pitch_decay: 65_510, env_decay: 65_200, noise_mix: 2, phase2_inc: 0, noise_seed: 0xACE1 },
        DrumType::OpenHiConga => DrumParams { engine: SynthEngine::Tom, max_samples: 2_976, phase_inc: 28_174_545, target_phase_inc: 26_000_000, pitch_decay: 65_520, env_decay: 65_450, noise_mix: 2, phase2_inc: 0, noise_seed: 0xACE1 },
        DrumType::LowConga => DrumParams { engine: SynthEngine::Tom, max_samples: 3_600, phase_inc: 17_888_600, target_phase_inc: 16_000_000, pitch_decay: 65_522, env_decay: 65_475, noise_mix: 2, phase2_inc: 0, noise_seed: 0xACE1 },
        DrumType::HighTimbale => DrumParams { engine: SynthEngine::TomNoise, max_samples: 2_400, phase_inc: 50_088_080, target_phase_inc: 44_000_000, pitch_decay: 65_510, env_decay: 65_360, noise_mix: 6, phase2_inc: 0, noise_seed: 0xACE1 },
        DrumType::LowTimbale => DrumParams { engine: SynthEngine::TomNoise, max_samples: 3_000, phase_inc: 33_093_910, target_phase_inc: 29_000_000, pitch_decay: 65_515, env_decay: 65_448, noise_mix: 6, phase2_inc: 0, noise_seed: 0xACE1 },
        DrumType::HighAgogo => DrumParams { engine: SynthEngine::PureTone, max_samples: 2_400, phase_inc: 78_709_840, target_phase_inc: 0, pitch_decay: 0, env_decay: 65_360, noise_mix: 0, phase2_inc: 0, noise_seed: 0xACE1 },
        DrumType::LowAgogo => DrumParams { engine: SynthEngine::PureTone, max_samples: 3_000, phase_inc: 59_032_380, target_phase_inc: 0, pitch_decay: 0, env_decay: 65_448, noise_mix: 0, phase2_inc: 0, noise_seed: 0xACE1 },
        DrumType::ShortWhistle => DrumParams { engine: SynthEngine::PureTone, max_samples: 4_800, phase_inc: 187_184_099, target_phase_inc: 0, pitch_decay: 0, env_decay: 65_500, noise_mix: 0, phase2_inc: 0, noise_seed: 0xACE1 },
        DrumType::LongWhistle => DrumParams { engine: SynthEngine::PureTone, max_samples: 12_000, phase_inc: 187_184_099, target_phase_inc: 0, pitch_decay: 0, env_decay: 65_521, noise_mix: 0, phase2_inc: 0, noise_seed: 0xACE1 },
        DrumType::MuteTriangle => DrumParams { engine: SynthEngine::PureTone, max_samples: 1_200, phase_inc: 314_839_360, target_phase_inc: 0, pitch_decay: 0, env_decay: 65_200, noise_mix: 0, phase2_inc: 0, noise_seed: 0xACE1 },
        DrumType::OpenTriangle => DrumParams { engine: SynthEngine::PureTone, max_samples: 28_800, phase_inc: 314_839_360, target_phase_inc: 0, pitch_decay: 0, env_decay: 65_530, noise_mix: 0, phase2_inc: 0, noise_seed: 0xACE1 },
        DrumType::Maracas => DrumParams { engine: SynthEngine::PureNoise, max_samples: 960, phase_inc: 0, target_phase_inc: 0, pitch_decay: 0, env_decay: 65_100, noise_mix: 16, phase2_inc: 0, noise_seed: 0xACE1 },
        DrumType::Claves => DrumParams { engine: SynthEngine::Click, max_samples: 240, phase_inc: 178_886_000, target_phase_inc: 0, pitch_decay: 0, env_decay: 64_800, noise_mix: 0, phase2_inc: 0, noise_seed: 0xACE1 },
        DrumType::HiWoodBlock => DrumParams { engine: SynthEngine::Click, max_samples: 1_200, phase_inc: 67_082_250, target_phase_inc: 0, pitch_decay: 0, env_decay: 65_200, noise_mix: 0, phase2_inc: 0, noise_seed: 0xACE1 },
        DrumType::LowWoodBlock => DrumParams { engine: SynthEngine::Click, max_samples: 1_200, phase_inc: 53_665_800, target_phase_inc: 0, pitch_decay: 0, env_decay: 65_200, noise_mix: 0, phase2_inc: 0, noise_seed: 0xACE1 },
        DrumType::ShortGuiro => DrumParams { engine: SynthEngine::Guiro, max_samples: 2_400, phase_inc: 0, target_phase_inc: 0, pitch_decay: 0, env_decay: 65_450, noise_mix: 0, phase2_inc: 14_311_040, noise_seed: 0xACE1 },
        DrumType::LongGuiro => DrumParams { engine: SynthEngine::Guiro, max_samples: 6_000, phase_inc: 0, target_phase_inc: 0, pitch_decay: 0, env_decay: 65_505, noise_mix: 0, phase2_inc: 7_155_440, noise_seed: 0xACE1 },
        DrumType::Cabasa => DrumParams { engine: SynthEngine::Cabasa, max_samples: 4_800, phase_inc: 0, target_phase_inc: 0, pitch_decay: 0, env_decay: 65_500, noise_mix: 0, phase2_inc: 1_788_860, noise_seed: 0xACE1 },
        DrumType::MuteCuica => DrumParams { engine: SynthEngine::Cuica, max_samples: 2_400, phase_inc: 26_832_900, target_phase_inc: 62_610_100, pitch_decay: 0, env_decay: 65_360, noise_mix: 0, phase2_inc: 14_907, noise_seed: 0xACE1 },
        DrumType::OpenCuica => DrumParams { engine: SynthEngine::Cuica, max_samples: 6_000, phase_inc: 26_832_900, target_phase_inc: 62_610_100, pitch_decay: 0, env_decay: 65_505, noise_mix: 0, phase2_inc: 5_963, noise_seed: 0xACE1 },
    }
}

/// The GM percussion note of each instrument.
pub open spec fn gm_note(t: DrumType) -> u8 {
    match t {
        DrumType::AcousticBassDrum => 35,
        DrumType::BassDrum1 => 36,
        DrumType::SideStick => 37,
        DrumType::AcousticSnare => 38,
        DrumType::HandClap => 39,
        DrumType::ElectricSnare => 40,
        DrumType::LowFloorTom => 41,
        DrumType::ClosedHiHat => 42,
        DrumType::HighFloorTom => 43,
        DrumType::PedalHiHat => 44,
        DrumType::LowTom => 45,
        DrumType::OpenHiHat => 46,
        DrumType::LowMidTom => 47,
        DrumType::HiMidTom => 48,
        DrumType::CrashCymbal1 => 49,
        DrumType::HighTom => 50,
        DrumType::RideCymbal1 => 51,
        DrumType::ChineseCymbal => 52,
        DrumType::RideBell => 53,
        DrumType::Tambourine => 54,
        DrumType::SplashCymbal => 55,
        DrumType::Cowbell => 56,
        DrumType::CrashCymbal2 => 57,
        DrumType::Vibraslap => 58,
        DrumType::RideCymbal2 => 59,
        DrumType::HiBongo => 60,
        DrumType::LowBongo => 61,
        DrumType::MuteHiConga => 62,
        DrumType::OpenHiConga => 63,
        DrumType::LowConga => 64,
        DrumType::HighTimbale => 65,
        DrumType::LowTimbale => 66,
        DrumType::HighAgogo => 67,
        DrumType::LowAgogo => 68,
        DrumType::Cabasa => 69,
        DrumType::Maracas => 70,
        DrumType::ShortWhistle => 71,
        DrumType::LongWhistle => 72,
        DrumType::ShortGuiro => 73,
        DrumType::LongGuiro => 74,
        DrumType::Claves => 75,
        DrumType::HiWoodBlock => 76,
        DrumType::LowWoodBlock => 77,
        DrumType::MuteCuica => 78,
        DrumType::OpenCuica => 79,
        DrumType::MuteTriangle => 80,
        DrumType::OpenTriangle => 81,
    }
}

pub open spec fn spec_midi_note_to_drum_type(note: u8) -> Option<DrumType> {
    match note {
        35 => Some(DrumType::AcousticBassDrum),
        36 => Some(DrumType::BassDrum1),
        37 => Some(DrumType::SideStick),
        38 => Some(DrumType::AcousticSnare),
        39 => Some(DrumType::HandClap),
        40 => Some(DrumType::ElectricSnare),
        41 => Some(DrumType::LowFloorTom),
        42 => Some(DrumType::ClosedHiHat),
        43 => Some(DrumType::HighFloorTom),
        44 => Some(DrumType::PedalHiHat),
        45 => Some(DrumType::LowTom),
        46 => Some(DrumType::OpenHiHat),
        47 => Some(DrumType::LowMidTom),
        48 => Some(DrumType::HiMidTom),
        49 => Some(DrumType::CrashCymbal1),
        50 => Some(DrumType::HighTom),
        51 => Some(DrumType::RideCymbal1),
        52 => Some(DrumType::ChineseCymbal),
        53 => Some(DrumType::RideBell),
        54 => Some(DrumType::Tambourine),
        55 => Some(DrumType::SplashCymbal),
        56 => Some(DrumType::Cowbell),
        57 => Some(DrumType::CrashCymbal2),
        58 => Some(DrumType::Vibraslap),
        59 => Some(DrumType::RideCymbal2),
        60 => Some(DrumType::HiBongo),
        61 => Some(DrumType::LowBongo),
        62 => Some(DrumType::MuteHiConga),
        63 => Some(DrumType::OpenHiConga),
        64 => Some(DrumType::LowConga),
        65 => Some(DrumType::HighTimbale),
        66 => Some(DrumType::LowTimbale),
        67 => Some(DrumType::HighAgogo),
        68 => Some(DrumType::LowAgogo),
        69 => Some(DrumType::Cabasa),
        70 => Some(DrumType::Maracas),
        71 => Some(DrumType::ShortWhistle),
        72 => Some(DrumType::LongWhistle),
        73 => Some(DrumType::ShortGuiro),
        74 => Some(DrumType::LongGuiro),
        75 => Some(DrumType::Claves),
        76 => Some(DrumType::HiWoodBlock),
        77 => Some(DrumType::LowWoodBlock),
        78 => Some(DrumType::MuteCuica),
        79 => Some(DrumType::OpenCuica),
        80 => Some(DrumType::MuteTriangle),
        81 => Some(DrumType::OpenTriangle),
        _ => None,
    }
}

/// The instrument a GM percussion note selects, for notes 35 to 81.
pub fn midi_note_to_drum_type(note: u8) -> (r: Option<DrumType>)
    ensures
        r == spec_midi_note_to_drum_type(note),
        r is Some <==> 35 <= note <= 81,
        r matches Some(t) ==> gm_note(t) == note,
{
    match note {
        35 => Some(DrumType::AcousticBassDrum),
        36 => Some(DrumType::BassDrum1),
        37 => Some(DrumType::SideStick),
        38 => Some(DrumType::AcousticSnare),
        39 => Some(DrumType::HandClap),
        40 => Some(DrumType::ElectricSnare),
        41 => Some(DrumType::LowFloorTom),
        42 => Some(DrumType::ClosedHiHat),
        43 => Some(DrumType::HighFloorTom),
        44 => Some(DrumType::PedalHiHat),
        45 => Some(DrumType::LowTom),
        46 => Some(DrumType::OpenHiHat),
        47 => Some(DrumType::LowMidTom),
        48 => Some(DrumType::HiMidTom),
        49 => Some(DrumType::CrashCymbal1),
        50 => Some(DrumType::HighTom),
        51 => Some(DrumType::RideCymbal1),
        52 => Some(DrumType::ChineseCymbal),
        53 => Some(DrumType::RideBell),
        54 => Some(DrumType::Tambourine),
        55 => Some(DrumType::SplashCymbal),
        56 => Some(DrumType::Cowbell),
        57 => Some(DrumType::CrashCymbal2),
        58 => Some(DrumType::Vibraslap),
        59 => Some(DrumType::RideCymbal2),
        60 => Some(DrumType::HiBongo),
        61 => Some(DrumType::LowBongo),
        62 => Some(DrumType::MuteHiConga),
        63 => Some(DrumType::OpenHiConga),
        64 => Some(DrumType::LowConga),
        65 => Some(DrumType::HighTimbale),
        66 => Some(DrumType::LowTimbale),
        67 => Some(DrumType::HighAgogo),
        68 => Some(DrumType::LowAgogo),
        69 => Some(DrumType::Cabasa),
        70 => Some(DrumType::Maracas),
        71 => Some(DrumType::ShortWhistle),
        72 => Some(DrumType::LongWhistle),
        73 => Some(DrumType::ShortGuiro),
        74 => Some(DrumType::LongGuiro),
        75 => Some(DrumType::Claves),
        76 => Some(DrumType::HiWoodBlock),
        77 => Some(DrumType::LowWoodBlock),
        78 => Some(DrumType::MuteCuica),
        79 => Some(DrumType::OpenCuica),
        80 => Some(DrumType::MuteTriangle),
        81 => Some(DrumType::OpenTriangle),
        _ => None,
    }
}

/// Each instrument is selected by exactly one note: its GM percussion note.
pub proof fn lemma_drum_note_roundtrip(t: DrumType)
    ensures
        spec_midi_note_to_drum_type(gm_note(t)) == Some(t),
        35 <= gm_note(t) <= 81,
{
}

pub struct DrumSampler {
    drum_type: DrumType,
    engine: SynthEngine,
    sample_count: u32,
    max_samples: u32,
    phase: u32,
    phase_inc: u32,
    target_phase_inc: u32,
    /// Exponential pitch-sweep multiplier (Kick, Tom).
    pitch_decay: u16,
    /// Second oscillator / LFO.
    phase2: u32,
    /// Second oscillator frequency, LFO rate, or cuica linear step.
    phase2_inc: u32,
    env: u16,
    env_decay: u16,
    /// 15-bit LFSR state.
    noise: u16,
    /// Previous noise sample, for the high-pass difference filter.
    noise_hp: i16,
    /// 0 = all tone, 16 = all noise.
    noise_mix: u8,
}

} // verus!

verus! {

/// Noise generator step: a 16-bit Galois LFSR with taps 0xB400.
pub open spec fn lfsr_next(noise: u16) -> u16 {
    if noise & 1 == 1 {
        (noise >> 1u16) ^ 0xB400u16
    } else {
        noise >> 1u16
    }
}

/// The noise sample of an LFSR state: its low 15 bits, centred and doubled.
pub open spec fn noise_sample(noise: u16) -> i16 {
    (((noise & 0x7FFFu16) as int - 16384) * 2) as i16
}

pub open spec fn wrapping_add_u32(a: u32, b: u32) -> u32 {
    if a + b > u32::MAX {
        (a + b - 0x1_0000_0000) as u32
    } else {
        (a + b) as u32
    }
}

/// Exponential downward pitch sweep, stopping at the target increment.
pub open spec fn sweep_down(inc: u32, target: u32, decay: u16) -> u32 {
    if inc > target {
        let swept = (((inc as u64 * decay as u64) as u64) >> 16u64) as u32;
        if swept > target { swept } else { target }
    } else {
        inc
    }
}

/// Blend of a tone and the noise, `mix` sixteenths of noise.
pub open spec fn blend(tone: i32, noise: i16, mix: u8) -> i32 {
    ((tone * (16 - mix) + noise * mix) as i32) >> 4i32
}

/// Square wave of a phase: high in the first half of the cycle.
pub open spec fn square_of(phase: u32, level: i32) -> i32 {
    if phase < 0x8000_0000 { level } else { (-level) as i32 }
}

impl DrumSampler {
    #[verifier::type_invariant]
    spec fn mix_in_range(&self) -> bool {
        &&& self.noise_mix <= 16
        &&& self.noise != 0
        &&& self.max_samples <= 28_800
    }

    /// The sampler with its voice retriggered: counters, phases and filter
    /// reset, the envelope at full level, and the settings of its instrument.
    pub closed spec fn triggered(self) -> DrumSampler {
        let p = drum_params(self.drum_type);
        DrumSampler {
            drum_type: self.drum_type,
            engine: p.engine,
            sample_count: 0,
            max_samples: p.max_samples,
            phase: 0,
            phase_inc: p.phase_inc,
            target_phase_inc: p.target_phase_inc,
            pitch_decay: p.pitch_decay,
            phase2: 0,
            phase2_inc: p.phase2_inc,
            env: 0xFFFF,
            env_decay: p.env_decay,
            noise: p.noise_seed,
            noise_hp: 0,
            noise_mix: p.noise_mix,
        }
    }

    pub closed spec fn spec_is_finished(self) -> bool {
        self.max_samples == 0 || self.sample_count >= self.max_samples || self.env < 100
    }

    pub closed spec fn with_instrument(self, drum_type: DrumType) -> DrumSampler {
        DrumSampler { drum_type, ..self }
    }

    pub closed spec fn instrument(self) -> DrumType {
        self.drum_type
    }

    /// The phase the next sample's oscillator will be at.
    pub closed spec fn upcoming_phase(self) -> u32 {
        wrapping_add_u32(self.phase, self.phase_inc)
    }

    /// The next sample cannot overflow: a cuica's rising pitch step stays within `u32`.
    pub closed spec fn step_fits(self) -> bool {
        !(self.engine == SynthEngine::Cuica && self.phase_inc < self.target_phase_inc
            && self.phase_inc + self.phase2_inc > u32::MAX)
    }

    /// The voice after one sample, and that sample (before the envelope's
    /// final scaling to a float), given the sine of the upcoming phase.
    pub closed spec fn step(self, sine: i32) -> (DrumSampler, i32) {
        if self.sample_count >= self.max_samples || self.env < 100 {
            (self, 0)
        } else {
            let sc = self.sample_count;
            let noise = lfsr_next(self.noise);
            let n = noise_sample(noise);
            let phase = wrapping_add_u32(self.phase, self.phase_inc);
            let square = square_of(phase, 32000);
            let env = (((self.env as u32 * self.env_decay as u32) as u32) >> 16u32) as u16;
            let phase2 = wrapping_add_u32(self.phase2, self.phase2_inc);
            let base = DrumSampler {
                sample_count: (sc + 1) as u32,
                noise,
                phase,
                env,
                ..self
            };
            let (next, raw): (DrumSampler, i32) = match self.engine {
                SynthEngine::Kick => {
                    let click: i32 = if sc < 80 { ((n * (80 - sc)) as i32) >> 7i32 } else { 0 };
                    (
                        DrumSampler {
                            phase_inc: sweep_down(self.phase_inc, self.target_phase_inc, self.pitch_decay),
                            ..base
                        },
                        (sine + click) as i32,
                    )
                },
                SynthEngine::Snare => (base, if sc < 48 { n as i32 } else { blend(sine, n, self.noise_mix) }),
                SynthEngine::Clap => {
                    let in_burst = sc < 96 || (sc >= 192 && sc < 288) || (sc >= 384 && sc < 480) || (sc
                        >= 576 && sc < 672);
                    (base, if in_burst || sc >= 672 { n as i32 } else { 0 })
                },
                SynthEngine::MetallicNoise => (
                    DrumSampler { noise_hp: n, ..base },
                    (n - self.noise_hp) as i32,
                ),
                SynthEngine::PureNoise => (base, n as i32),
                SynthEngine::Tom => (
                    DrumSampler {
                        phase_inc: sweep_down(self.phase_inc, self.target_phase_inc, self.pitch_decay),
                        ..base
                    },
                    if self.noise_mix == 0 { sine } else { blend(sine, n, self.noise_mix) },
                ),
                SynthEngine::TomNoise => (
                    DrumSampler {
                        phase_inc: sweep_down(self.phase_inc, self.target_phase_inc, self.pitch_decay),
                        ..base
                    },
                    blend(sine, n, self.noise_mix),
                ),
                SynthEngine::PureTone => (base, sine),
                SynthEngine::Click => (base, blend(square, n, self.noise_mix)),
                SynthEngine::Cowbell => (
                    DrumSampler { phase2, ..base },
                    (square_of(phase, 16000) + square_of(phase2, 16000)) as i32,
                ),
                SynthEngine::Vibraslap => (
                    DrumSampler { phase2, ..base },
                    if sc < 200 {
                        square
                    } else if phase2 < 0x8000_0000 {
                        n as i32
                    } else {
                        0
                    },
                ),
                SynthEngine::Guiro => (
                    DrumSampler { phase2, ..base },
                    if phase2 < 0x8000_0000 { n as i32 } else { 0 },
                ),
                SynthEngine::Cabasa => {
                    let am: i32 = if phase2 < 0x8000_0000 {
                        (phase2 >> 17u32) as i32
                    } else {
                        (32767 - ((phase2 - 0x8000_0000) as u32 >> 17u32)) as i32
                    };
                    (DrumSampler { phase2, ..base }, ((n * am) as i32) >> 15i32)
                },
                SynthEngine::Cuica => (
                    DrumSampler {
                        phase_inc: if self.phase_inc < self.target_phase_inc {
                            if self.phase_inc + self.phase2_inc < self.target_phase_inc {
                                (self.phase_inc + self.phase2_inc) as u32
                            } else {
                                self.target_phase_inc
                            }
                        } else {
                            self.phase_inc
                        },
                        ..base
                    },
                    sine,
                ),
            };
            (next, ((raw as i64 * env as i64) as i64 >> 16i64) as i32)
        }
    }

    /// A silent, untriggered bass-drum voice.
    pub closed spec fn fresh() -> DrumSampler {
        DrumSampler {
            drum_type: DrumType::BassDrum1,
            engine: SynthEngine::Kick,
            sample_count: 0,
            max_samples: 0,
            phase: 0,
            phase_inc: 0,
            target_phase_inc: 0,
            pitch_decay: 65_490,
            phase2: 0,
            phase2_inc: 0,
            env: 0,
            env_decay: 65_500,
            noise: 0xACE1,
            noise_hp: 0,
            noise_mix: 0,
        }
    }

    /// The synthesis engine the voice runs.
    pub closed spec fn engine_of(self) -> SynthEngine {
        self.engine
    }

    /// The pitch-sweep and envelope decay multipliers.
    pub closed spec fn decays(self) -> (u16, u16) {
        (self.pitch_decay, self.env_decay)
    }

    /// The state of the noise generator.
    pub closed spec fn noise_state(self) -> u16 {
        self.noise
    }

    /// Sixteenths of noise in the blend.
    pub closed spec fn mix(self) -> u8 {
        self.noise_mix
    }

    /// What holds of every voice: the noise generator never locks at zero,
    /// no hit is longer than 28 800 samples, and the blend has at most 16
    /// sixteenths of noise.
    pub open spec fn in_range(self) -> bool {
        &&& self.noise_state() != 0
        &&& self.length() <= 28_800
        &&& self.mix() <= 16
    }

    pub fn new() -> (r: Self)
        ensures
            r == DrumSampler::fresh(),
            r.instrument() == DrumType::BassDrum1,
            r.spec_is_finished(),
            r.in_range(),
    {
        DrumSampler {
            drum_type: DrumType::BassDrum1,
            engine: SynthEngine::Kick,
            sample_count: 0,
            max_samples: 0,
            phase: 0,
            phase_inc: 0,
            target_phase_inc: 0,
            pitch_decay: 65_490,
            phase2: 0,
            phase2_inc: 0,
            env: 0,
            env_decay: 65_500,
            noise: 0xACE1,
            noise_hp: 0,
            noise_mix: 0,
        }
    }

    /// Selects the instrument that the next trigger plays.
    pub fn set_drum_type(&mut self, drum_type: DrumType)
        ensures
            *final(self) == old(self).with_instrument(drum_type),
            final(self).in_range(),
    {
        proof {
            use_type_invariant(&*self);
        }
        self.drum_type = drum_type;
    }

    /// Restarts the voice with the settings of its instrument.
    pub fn trigger(&mut self)
        ensures
            *final(self) == old(self).triggered(),
            !final(self).spec_is_finished(),
            final(self).instrument() == old(self).instrument(),
            final(self).in_range(),
    {
        proof {
            use_type_invariant(&*self);
        }
        let p = params_of(self.drum_type);
        self.sample_count = 0;
        self.phase = 0;
        self.phase2 = 0;
        self.noise = p.noise_seed;
        self.noise_hp = 0;
        self.env = 0xFFFF;
        self.engine = p.engine;
        self.max_samples = p.max_samples;
        self.phase_inc = p.phase_inc;
        self.target_phase_inc = p.target_phase_inc;
        self.pitch_decay = p.pitch_decay;
        self.env_decay = p.env_decay;
        self.noise_mix = p.noise_mix;
        self.phase2_inc = p.phase2_inc;
    }

    pub fn is_finished(&self) -> (r: bool)
        ensures
            r == self.spec_is_finished(),
    {
        self.max_samples == 0 || self.sample_count >= self.max_samples || self.env < 100
    }

    /// The phase the next sample's oscillator will be at.
    pub fn next_phase(&self) -> (r: u32)
        ensures
            r == self.upcoming_phase(),
    {
        self.phase.wrapping_add(self.phase_inc)
    }

    /// Whether the next sample can be computed without overflow.
    pub fn next_step_fits(&self) -> (r: bool)
        ensures
            r == self.step_fits(),
    {
        !(self.engine == SynthEngine::Cuica && self.phase_inc < self.target_phase_inc
            && self.phase_inc > u32::MAX - self.phase2_inc)
    }
}


proof fn lemma_click_bound(x: i32)
    by (bit_vector)
    requires
        -2621440 <= x <= 2621440,
    ensures
        -20480 <= (x >> 7i32) <= 20480,
{
}

proof fn lemma_shr17_bound(p: u32)
    by (bit_vector)
    ensures
        (p >> 17u32) <= 32767u32,
{
}

proof fn lemma_lfsr_nonzero(noise: u16)
    by (bit_vector)
    requires
        noise != 0,
    ensures
        (if noise & 1 == 1 { (noise >> 1u16) ^ 0xB400u16 } else { noise >> 1u16 }) != 0,
{
}

proof fn lemma_shr4_bound(x: i32)
    by (bit_vector)
    requires
        -1048576 <= x <= 1048560,
    ensures
        -65536 <= (x >> 4i32) <= 65535,
{
}

proof fn lemma_shr15_bound(x: i32)
    by (bit_vector)
    requires
        -1073741824 <= x <= 1073709056,
    ensures
        -65536 <= (x >> 15i32) <= 65535,
{
}

proof fn lemma_scaled_bound(x: i64)
    by (bit_vector)
    requires
        -4294901760 <= x <= 4294836225,
    ensures
        -65536 < (x >> 16i64) < 65536,
{
}

proof fn lemma_noise_bits(noise: u16)
    by (bit_vector)
    ensures
        (noise & 0x7FFFu16) <= 0x7FFFu16,
{
}

impl DrumSampler {
    /// Computes one sample of the voice, given `sine`, the Bhaskara sine
    /// (-32767..=32767) of the phase reported by `next_phase`. Returns the
    /// sample scaled by the envelope (a full-scale sample is 32768); a finished
    /// voice returns 0 and is left unchanged.
    pub fn next_sample(&mut self, sine: i32) -> (out: i32)
        requires
            -32767 <= sine <= 32767,
            !old(self).spec_is_finished() ==> old(self).step_fits(),
        ensures
            (*final(self), out) == old(self).step(sine),
            -65_536 < out < 65_536,
            final(self).in_range(),
    {
        proof {
            use_type_invariant(&*self);
        }
        if self.sample_count >= self.max_samples || self.env < 100 {
            return 0;
        }
        assert(self.step_fits());
        let sc = self.sample_count;
        self.sample_count = self.sample_count + 1;

        let lsb = self.noise & 1;
        let shifted = self.noise >> 1;
        let next_noise = if lsb == 1 { shifted ^ 0xB400 } else { shifted };
        proof {
            lemma_lfsr_nonzero(self.noise);
        }
        self.noise = next_noise;
        proof {
            lemma_noise_bits(self.noise);
        }
        let noise_i: i16 = (((self.noise & 0x7FFF) as i16) - 16384) * 2;
        let n: i32 = noise_i as i32;

        self.phase = self.phase.wrapping_add(self.phase_inc);
        let square: i32 = if self.phase < 0x8000_0000 { 32000 } else { -32000 };

        assert((self.env as u32) * (self.env_decay as u32) <= 0xFFFF * 0xFFFF) by (nonlinear_arith)
            requires self.env <= 0xFFFF, self.env_decay <= 0xFFFF;
        self.env = (((self.env as u32) * (self.env_decay as u32)) >> 16) as u16;

        let raw: i32 = match self.engine {
            SynthEngine::Kick => {
                if self.phase_inc > self.target_phase_inc {
                    assert((self.phase_inc as u64) * (self.pitch_decay as u64) <= 0xFFFF_FFFF * 0xFFFF) by (nonlinear_arith)
                        requires self.phase_inc <= 0xFFFF_FFFF, self.pitch_decay <= 0xFFFF;
                    let swept = (((self.phase_inc as u64) * (self.pitch_decay as u64)) >> 16) as u32;
                    self.phase_inc = if swept > self.target_phase_inc { swept } else { self.target_phase_inc };
                }
                let click: i32 = if sc < 80 {
                    assert(n * (80 - sc as i32) <= 2621440 && n * (80 - sc as i32) >= -2621440) by (nonlinear_arith)
                        requires -32768 <= n <= 32767, 0 < 80 - sc <= 80;
                    let c = (n * (80 - sc as i32)) >> 7;
                    proof {
                        lemma_click_bound((n * (80 - sc as i32)) as i32);
                    }
                    c
                } else {
                    0
                };
                sine + click
            },
            SynthEngine::Snare => {
                if sc < 48 {
                    n
                } else {
                    let mix = self.noise_mix as i32;
                    assert(-32768 * 16 <= sine * (16 - mix) <= 32767 * 16) by (nonlinear_arith)
                        requires -32768 <= sine <= 32767, 0 <= 16 - mix <= 16;
                    assert(-32768 * 16 <= n * mix <= 32767 * 16) by (nonlinear_arith)
                        requires -32768 <= n <= 32767, 0 <= mix <= 16;
                    {
                    let v = sine * (16 - mix) + n * mix;
                    proof {
                        lemma_shr4_bound(v);
                    }
                    v >> 4
                }
                }
            },
            SynthEngine::Clap => {
                let in_burst = sc < 96 || (sc >= 192 && sc < 288) || (sc >= 384 && sc < 480) || (sc >= 576
                    && sc < 672);
                if in_burst || sc >= 672 {
                    n
                } else {
                    0
                }
            },
            SynthEngine::MetallicNoise => {
                let hp = n - self.noise_hp as i32;
                self.noise_hp = noise_i;
                hp
            },
            SynthEngine::PureNoise => n,
            SynthEngine::Tom => {
                if self.phase_inc > self.target_phase_inc {
                    assert((self.phase_inc as u64) * (self.pitch_decay as u64) <= 0xFFFF_FFFF * 0xFFFF) by (nonlinear_arith)
                        requires self.phase_inc <= 0xFFFF_FFFF, self.pitch_decay <= 0xFFFF;
                    let swept = (((self.phase_inc as u64) * (self.pitch_decay as u64)) >> 16) as u32;
                    self.phase_inc = if swept > self.target_phase_inc { swept } else { self.target_phase_inc };
                }
                let mix = self.noise_mix as i32;
                if mix == 0 {
                    sine
                } else {
                    assert(-32768 * 16 <= sine * (16 - mix) <= 32767 * 16) by (nonlinear_arith)
                        requires -32768 <= sine <= 32767, 0 <= 16 - mix <= 16;
                    assert(-32768 * 16 <= n * mix <= 32767 * 16) by (nonlinear_arith)
                        requires -32768 <= n <= 32767, 0 <= mix <= 16;
                    {
                    let v = sine * (16 - mix) + n * mix;
                    proof {
                        lemma_shr4_bound(v);
                    }
                    v >> 4
                }
                }
            },
            SynthEngine::TomNoise => {
                if self.phase_inc > self.target_phase_inc {
                    assert((self.phase_inc as u64) * (self.pitch_decay as u64) <= 0xFFFF_FFFF * 0xFFFF) by (nonlinear_arith)
                        requires self.phase_inc <= 0xFFFF_FFFF, self.pitch_decay <= 0xFFFF;
                    let swept = (((self.phase_inc as u64) * (self.pitch_decay as u64)) >> 16) as u32;
                    self.phase_inc = if swept > self.target_phase_inc { swept } else { self.target_phase_inc };
                }
                let mix = self.noise_mix as i32;
                assert(-32768 * 16 <= sine * (16 - mix) <= 32767 * 16) by (nonlinear_arith)
                    requires -32768 <= sine <= 32767, 0 <= 16 - mix <= 16;
                assert(-32768 * 16 <= n * mix <= 32767 * 16) by (nonlinear_arith)
                    requires -32768 <= n <= 32767, 0 <= mix <= 16;
                {
                    let v = sine * (16 - mix) + n * mix;
                    proof {
                        lemma_shr4_bound(v);
                    }
                    v >> 4
                }
            },
            SynthEngine::PureTone => sine,
            SynthEngine::Click => {
                let mix = self.noise_mix as i32;
                assert(-32000 * 16 <= square * (16 - mix) <= 32000 * 16) by (nonlinear_arith)
                    requires -32000 <= square <= 32000, 0 <= 16 - mix <= 16;
                assert(-32768 * 16 <= n * mix <= 32767 * 16) by (nonlinear_arith)
                    requires -32768 <= n <= 32767, 0 <= mix <= 16;
                {
                    let v = square * (16 - mix) + n * mix;
                    proof {
                        lemma_shr4_bound(v);
                    }
                    v >> 4
                }
            },
            SynthEngine::Cowbell => {
                self.phase2 = self.phase2.wrapping_add(self.phase2_inc);
                let half: i32 = if self.phase < 0x8000_0000 { 16000 } else { -16000 };
                let sq2: i32 = if self.phase2 < 0x8000_0000 { 16000 } else { -16000 };
                half + sq2
            },
            SynthEngine::Vibraslap => {
                self.phase2 = self.phase2.wrapping_add(self.phase2_inc);
                if sc < 200 {
                    square
                } else if self.phase2 < 0x8000_0000 {
                    n
                } else {
                    0
                }
            },
            SynthEngine::Guiro => {
                self.phase2 = self.phase2.wrapping_add(self.phase2_inc);
                if self.phase2 < 0x8000_0000 {
                    n
                } else {
                    0
                }
            },
            SynthEngine::Cabasa => {
                self.phase2 = self.phase2.wrapping_add(self.phase2_inc);
                let am: i32 = if self.phase2 < 0x8000_0000 {
                    (self.phase2 >> 17) as i32
                } else {
                    32767 - ((self.phase2 - 0x8000_0000) >> 17) as i32
                };
                proof {
                    lemma_shr17_bound(self.phase2);
                    if self.phase2 >= 0x8000_0000 {
                        lemma_shr17_bound((self.phase2 - 0x8000_0000) as u32);
                    }
                }
                assert(-32768 * 32767 <= n * am <= 32767 * 32767) by (nonlinear_arith)
                    requires -32768 <= n <= 32767, 0 <= am <= 32767;
                proof {
                    lemma_shr15_bound((n * am) as i32);
                }
                (n * am) >> 15
            },
            SynthEngine::Cuica => {
                if self.phase_inc < self.target_phase_inc {
                    let stepped = self.phase_inc + self.phase2_inc;
                    self.phase_inc = if stepped < self.target_phase_inc { stepped } else { self.target_phase_inc };
                }
                sine
            },
        };
        assert(-65536 <= raw <= 65535);
        assert((raw as i64) * (self.env as i64) <= 4294836225 && (raw as i64) * (self.env as i64) >= -4294901760) by (nonlinear_arith)
            requires -65536 <= raw <= 65535, 0 <= self.env <= 0xFFFF;
        proof {
            lemma_scaled_bound(((raw as i64) * (self.env as i64)) as i64);
            use_type_invariant(&*self);
        }
        (((raw as i64) * (self.env as i64)) >> 16) as i32
    }
}

proof fn lemma_shr16_is_div(x: u32)
    by (bit_vector)
    ensures
        x >> 16u32 == x / 65536u32,
{
}

proof fn lemma_envelope_decays(e: u16, d: u16)
    ensures
        ((((e as u32) * (d as u32)) as u32) >> 16u32) <= e as u32,
{
    assert((e as u32) * (d as u32) <= 0xFFFF * 0xFFFF) by (nonlinear_arith)
        requires e <= 0xFFFF, d <= 0xFFFF;
    let x = ((e as u32) * (d as u32)) as u32;
    lemma_shr16_is_div(x);
    assert(x / 65536 <= e) by (nonlinear_arith)
        requires x == (e as int) * (d as int), 0 <= d < 65536, 0 <= e;
}

impl DrumSampler {
    /// Phase increments of the primary oscillator, its sweep target, and the
    /// second oscillator.
    pub closed spec fn increments(self) -> (u32, u32, u32) {
        (self.phase_inc, self.target_phase_inc, self.phase2_inc)
    }

    /// Samples produced since the last trigger.
    pub closed spec fn samples_played(self) -> u32 {
        self.sample_count
    }

    /// Length cap of the voice in samples.
    pub closed spec fn length(self) -> u32 {
        self.max_samples
    }

    /// Current envelope level (0xFFFF at a trigger).
    pub closed spec fn level(self) -> u16 {
        self.env
    }

    pub closed spec fn with_increments(self, inc: (u32, u32, u32)) -> DrumSampler {
        DrumSampler { phase_inc: inc.0, target_phase_inc: inc.1, phase2_inc: inc.2, ..self }
    }

    pub fn phase_increments(&self) -> (r: (u32, u32, u32))
        ensures
            r == self.increments(),
    {
        (self.phase_inc, self.target_phase_inc, self.phase2_inc)
    }

    /// Replaces the frequency-bearing increments, for playback at a sample
    /// rate other than 48 kHz.
    pub fn set_phase_increments(&mut self, phase_inc: u32, target_phase_inc: u32, phase2_inc: u32)
        ensures
            *final(self) == old(self).with_increments((phase_inc, target_phase_inc, phase2_inc)),
            final(self).in_range(),
    {
        proof {
            use_type_invariant(&*self);
        }
        self.phase_inc = phase_inc;
        self.target_phase_inc = target_phase_inc;
        self.phase2_inc = phase2_inc;
    }

    /// A finished voice is silent and stays as it is.
    pub proof fn lemma_finished_is_silent(self, sine: i32)
        requires
            self.spec_is_finished(),
        ensures
            self.step(sine) == (self, 0i32),
    {
    }

    /// A sounding voice advances one sample towards its length while its
    /// envelope never grows, so it finishes within `max_samples` samples.
    pub proof fn lemma_voice_progresses(self, sine: i32)
        requires
            !self.spec_is_finished(),
        ensures
            self.step(sine).0.samples_played() == self.samples_played() + 1,
            self.step(sine).0.length() == self.length(),
            self.step(sine).0.level() <= self.level(),
            self.samples_played() < self.length(),
    {
        lemma_envelope_decays(self.env, self.env_decay);
    }
}
impl Default for DrumSampler {
    /// A finished bass-drum voice, as `new` makes.
    fn default() -> (r: Self)
        ensures
            r == DrumSampler::fresh(),
    {
        Self::new()
    }
}


impl DrumSampler {
    /// A new voice is the silent bass drum: nothing played, no length, no
    /// level, the noise generator at its seed.
    pub proof fn lemma_fresh()
        ensures
            DrumSampler::fresh().instrument() == DrumType::BassDrum1,
            DrumSampler::fresh().samples_played() == 0,
            DrumSampler::fresh().length() == 0,
            DrumSampler::fresh().level() == 0,
            DrumSampler::fresh().noise_state() == 0xACE1,
            DrumSampler::fresh().spec_is_finished(),
            DrumSampler::fresh().in_range(),
    {
    }

    /// A trigger restarts the hit from nothing played, at full level, with
    /// the length, noise seed, blend, engine, phase increments and decays of
    /// the instrument, its oscillators at phase zero; what it sets depends on
    /// the instrument alone, so two voices of one instrument agree after a
    /// trigger and a second trigger changes nothing.
    pub proof fn lemma_triggered(self, other: DrumSampler)
        ensures
            self.triggered().instrument() == self.instrument(),
            self.triggered().samples_played() == 0,
            self.triggered().length() == drum_params(self.instrument()).max_samples,
            self.triggered().level() == 0xFFFF,
            self.triggered().noise_state() == drum_params(self.instrument()).noise_seed,
            self.triggered().mix() == drum_params(self.instrument()).noise_mix,
            self.triggered().engine_of() == drum_params(self.instrument()).engine,
            self.triggered().increments() == (
                drum_params(self.instrument()).phase_inc,
                drum_params(self.instrument()).target_phase_inc,
                drum_params(self.instrument()).phase2_inc,
            ),
            self.triggered().decays() == (drum_params(self.instrument()).pitch_decay, drum_params(self.instrument()).env_decay),
            self.triggered().upcoming_phase() == drum_params(self.instrument()).phase_inc,
            !self.triggered().spec_is_finished(),
            self.triggered().triggered() == self.triggered(),
            self.instrument() == other.instrument() ==> self.triggered() == other.triggered(),
    {
        assert(drum_params(self.instrument()).max_samples > 0);
    }
}

/// The voice after one sample for each of `sines` (the sine of each
/// sample's phase).
pub open spec fn run(d: DrumSampler, sines: Seq<i32>) -> DrumSampler
    decreases sines.len(),
{
    if sines.len() == 0 {
        d
    } else {
        run(d.step(sines[0]).0, sines.drop_first())
    }
}

/// Every hit ends within its length: once as many samples as remain of it
/// have been computed, the voice is finished, and from then on it is silent
/// and stays as it is.
pub proof fn lemma_hit_ends(d: DrumSampler, sines: Seq<i32>)
    requires
        sines.len() >= d.length() - d.samples_played(),
    ensures
        run(d, sines).spec_is_finished(),
        forall|sine: i32| #[trigger] run(d, sines).step(sine) == (run(d, sines), 0i32),
    decreases sines.len(),
{
    if sines.len() == 0 {
        assert(d.samples_played() >= d.length());
        assert(d.spec_is_finished()) by {
            reveal_sampler_finished(d);
        }
    } else if d.spec_is_finished() {
        lemma_finished_stays(d, sines);
    } else {
        d.lemma_voice_progresses(sines[0]);
        lemma_hit_ends(d.step(sines[0]).0, sines.drop_first());
    }
    assert forall|sine: i32| #[trigger] run(d, sines).step(sine) == (run(d, sines), 0i32) by {
        run(d, sines).lemma_finished_is_silent(sine);
    }
}

proof fn lemma_finished_stays(d: DrumSampler, sines: Seq<i32>)
    requires
        d.spec_is_finished(),
    ensures
        run(d, sines) == d,
    decreases sines.len(),
{
    if sines.len() > 0 {
        d.lemma_finished_is_silent(sines[0]);
        lemma_finished_stays(d, sines.drop_first());
    }
}

proof fn reveal_sampler_finished(d: DrumSampler)
    requires
        d.samples_played() >= d.length(),
    ensures
        d.spec_is_finished(),
{
}

} // verus!
