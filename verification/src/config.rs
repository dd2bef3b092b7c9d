use vstd::prelude::*;

verus! {

/// Tempo of a fresh looper, in beats per minute.
pub const DEFAULT_TEMPO_BPM: u32 = 120;

/// Beats in one measure of a fresh looper.
pub const DEFAULT_MEASURE_SIZE_BPM: u32 = 4;

/// How many times a fresh looper subdivides a measure to reach a quant.
pub const DEFAULT_QUANTATION_LEVEL: u32 = 2;

/// The channel that carries the metronome.
pub const CONTROL_CHANNEL_NUMBER: u8 = 9;

/// The key on which the metronome clicks.
pub const BEAT_KEY_NUMBER: u8 = 37;

/// Velocity of the click on the first beat of a measure.
pub const BEAT_ACCENT_VELOCITY: u8 = 127;

/// Velocity of the click on every other beat.
pub const BEAT_VELOCITY: u8 = 50;

/// The key that starts and ends a recording, on the control channel.
pub const CONTROL_KEY_NUMBER: u8 = 51;

/// The controller that sets the tempo.
pub const TEMPO_CHANGE_CONTROL_NUMBER: u8 = 21;

/// The tempo that the tempo controller gives at value 0.
pub const TEMPO_CHANGE_BASE_BPM: u32 = 90;

} // verus!
