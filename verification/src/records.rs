//! The typed records a chart file decodes into.
//!
//! Times ("beats") are decimal numbers in the source text and are stored as
//! integers scaled by `10^3` (millisecond precision); rate-like fields
//! (`play_rate`, `ratio`, `factor`, the radar values) are stored the same
//! way, truncated beyond their precision.

use vstd::prelude::*;

verus! {

/// An instrument name and the audio file assigned to it.
#[derive(Debug, Default)]
pub struct StepmaniaInstrumentTrack {
    /// The instrument name.
    pub instrument: String,
    /// Relative path to the instrument track.
    pub file: String,
}

/// An RGBA color with 8-bit channels.
#[derive(Debug, PartialEq, Eq, Structural, Clone, Copy)]
pub struct StepmaniaColor {
    pub red: u8,
    pub green: u8,
    pub blue: u8,
    pub alpha: u8,
}

impl Default for StepmaniaColor {
    /// Opaque black.
    fn default() -> (c: Self)
        ensures
            c == (StepmaniaColor { red: 0, green: 0, blue: 0, alpha: 255 }),
    {
        StepmaniaColor { red: 0, green: 0, blue: 0, alpha: 255 }
    }
}

/// A timed change of a visual layer (background, foreground, animation).
#[derive(Debug, Default)]
pub struct StepmaniaTimedVisualChange {
    /// At which beat the visual change applies.
    pub beat: i64,
    /// Path to the file for the change.
    pub path: String,
    /// How fast the image/video is played, truncated to a whole rate.
    pub play_rate: i64,
    /// Whether to cross-fade between the previous and this change.
    pub crossfade: bool,
    pub stretch_rewind: bool,
    pub stretch_no_loop: bool,
    /// The effect to apply.
    pub effect: String,
    /// Second file for changes.
    pub file2: String,
    /// The transition effect between the previous and this change.
    pub transition: String,
    pub color1: StepmaniaColor,
    pub color2: StepmaniaColor,
}

/// A timed duration (stop, delay or fake section).
#[derive(Debug, Default, PartialEq, Eq, Structural, Clone, Copy)]
pub struct StepmaniaTimedDuration {
    /// At which beat the duration applies.
    pub beat: i64,
    /// Duration in ms.
    pub duration: i64,
}

/// A timed BPM change.
#[derive(Debug, Default, PartialEq, Eq, Structural, Clone, Copy)]
pub struct StepmaniaTimedBPM {
    /// At which beat the BPM change applies.
    pub beat: i64,
    /// The BPM, scaled by `10^3`.
    pub bpm: i64,
}

/// A timed time-signature change.
#[derive(Debug, Default, PartialEq, Eq, Structural, Clone, Copy)]
pub struct StepmaniaTimedTimeSignature {
    /// At which beat the time signature applies.
    pub beat: i64,
    /// Numerator of the signature.
    pub numerator: u8,
    /// Denominator of the signature.
    pub denominator: u8,
}

/// A timed plain number (checkpoint-hold tick count).
#[derive(Debug, Default, PartialEq, Eq, Structural, Clone, Copy)]
pub struct StepmaniaTimedNumber {
    /// At which beat the value applies.
    pub beat: i64,
    /// The value.
    pub value: i32,
}

/// A timed combo-worth change.
#[derive(Debug, Default, PartialEq, Eq, Structural, Clone, Copy)]
pub struct StepmaniaTimedComboChange {
    /// At which beat the combo change applies.
    pub beat: i64,
    /// How much a single hit is worth for the combo.
    pub hit: u32,
    /// How much damage a single miss deals.
    pub miss: u32,
}

/// A timed scroll-speed change of the playfield.
#[derive(Debug, Default, PartialEq, Eq, Structural, Clone, Copy)]
pub struct StepmaniaTimedSpeedChange {
    /// At which beat the speed change applies.
    pub beat: i64,
    /// The ratio to apply, scaled by `10^3`.
    pub ratio: i64,
    /// How long the change is applied for, in ms (or s, see `in_seconds`).
    pub duration: i64,
    /// Whether `duration` is counted in seconds instead of milliseconds.
    pub in_seconds: bool,
}

/// A timed scroll-factor change.
#[derive(Debug, Default, PartialEq, Eq, Structural, Clone, Copy)]
pub struct StepmaniaTimedScrollSpeedChange {
    /// At which beat the scroll change applies.
    pub beat: i64,
    /// The factor to apply, scaled by `10^3`.
    pub factor: i64,
}

/// A timed label.
#[derive(Debug, Default)]
pub struct StepmaniaTimedLabel {
    /// At which beat the label appears.
    pub beat: i64,
    /// Label content to display.
    pub label: String,
}

/// An inclusive numeric range.
#[derive(Debug, Default, PartialEq, Eq, Structural, Clone, Copy)]
pub struct StepmaniaNumberRange {
    /// Lower bound.
    pub min: i64,
    /// Upper bound.
    pub max: i64,
}

/// How a chart's BPM is displayed.
#[derive(Debug, PartialEq, Eq, Structural, Clone, Copy)]
pub enum StepmaniaBPMRange {
    /// A single BPM value.
    Single(i64),
    /// A range of BPM (from - to).
    Range(i64, i64),
    /// A randomly updated/displayed BPM.
    Random,
}

/// A timed warp over a stretch of beats.
#[derive(Debug, Default, PartialEq, Eq, Structural, Clone, Copy)]
pub struct StepmaniaWarp {
    /// At which beat the warp starts.
    pub beat: i64,
    /// At which beat the warp ends.
    pub end_beat: i64,
}

/// The five skill-category ratings of a chart, each scaled by `10^3`.
#[derive(Debug, Default, PartialEq, Eq, Structural, Clone, Copy)]
pub struct StepmaniaRadarValues {
    pub stream: i64,
    pub voltage: i64,
    pub air: i64,
    pub freeze: i64,
    pub chaos: i64,
}

/// The magnitude of an attack modifier.
#[derive(Debug, PartialEq, Eq, Structural, Clone, Copy)]
pub enum StepmaniaMagnitude {
    /// The amount in percent.
    Percent(u16),
    /// The amount as a `10^3`-scaled integer.
    Amount(i64),
}

impl Default for StepmaniaMagnitude {
    fn default() -> (m: Self)
        ensures
            m == StepmaniaMagnitude::Percent(0u16),
    {
        StepmaniaMagnitude::Percent(0)
    }
}

/// One modifier applied during an attack.
#[derive(Debug, Default)]
pub struct StepmaniaAttackModifier {
    /// Name of the modifier.
    pub name: String,
    /// The player the modifier is applied to; empty targets all players.
    pub player: Option<String>,
    /// Approach rate used to ease the modifier in.
    pub approach_rate: Option<u8>,
    /// The magnitude of the modifier.
    pub magnitude: StepmaniaMagnitude,
}

/// An attack attached to a single note.
#[derive(Debug, Default)]
pub struct StepmaniaNoteAttack {
    /// Duration of the attack in seconds (not beats), scaled by `10^3`.
    pub duration: i64,
    /// The modifiers to apply during the attack.
    pub modifiers: Vec<StepmaniaAttackModifier>,
}

/// A timed attack.
#[derive(Debug, Default)]
pub struct StepmaniaAttack {
    /// The start of the attack in seconds (not beats), scaled by `10^3`.
    pub start: i64,
    /// How long the attack lasts in seconds (not beats), scaled by `10^3`.
    pub duration: i64,
    /// The modifiers to apply during the attack.
    pub modifiers: Vec<StepmaniaAttackModifier>,
}

} // verus!
