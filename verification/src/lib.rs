//! A quantized MIDI loop-recording engine.
//!
//! * [`measure`] and [`quant`]: the arithmetic of tempo, measures and quants.
//! * [`midi`]: messages, and the note tracker to which the looper sends them.
//! * [`sample`]: one recorded layer on the grid, and how layers are replayed.
//! * [`looper`]: the state machine that records, layers and replays.
//! * [`screen`]: what keys and played messages ask of the looper.
//! * [`numeric`]: least common multiples, for the length of a composition.
//! * [`config`]: the constants of a fresh looper and of its controls.

pub mod config;
pub mod looper;
pub mod measure;
pub mod midi;
pub mod numeric;
pub mod quant;
pub mod sample;
pub mod screen;
