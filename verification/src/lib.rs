//! Core of a real-time audio mixing engine.
//!
//! A graph of signal-processing modules is advanced tick by tick by the
//! [`engine::Engine`] scheduler; every module produces one fixed-size block of
//! samples per output terminal per tick.  The [`session`] module multiplexes
//! the live engine state out to observers, [`codec`] and [`persist`] carry the
//! workspace snapshot to durable storage, and [`project`] tracks the media
//! library and in-flight uploads.

use vstd::prelude::*;

pub mod types;
pub mod gate;
pub mod vst;
pub mod module;
pub mod engine;
pub mod session;
pub mod codec;
pub mod persist;
pub mod project;

verus! {

/// One audio sample, in signed fixed point: `SAMPLE_UNIT` stands for a
/// full-scale value of one.
pub type Sample = i64;

/// Samples per second of the audio clock.
pub const SAMPLE_RATE: usize = 44100;

/// Scheduler ticks per second.
pub const TICK_RATE: usize = 100;

/// Samples in one block: every output terminal of every module is filled
/// with exactly this many samples on every tick.
pub const BLOCK_SIZE: usize = SAMPLE_RATE / TICK_RATE;

/// The fixed-point scale of [`Sample`]: this value stands for 1.0.
pub const SAMPLE_UNIT: i64 = 65536;

} // verus!
