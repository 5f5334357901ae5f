//! Core of a note-rendering and playback-scheduling engine.
//!
//! Musical scripts are rendered ahead of time by a preparation thread and
//! mixed into a device buffer by a hard-realtime audio callback.  The logic
//! of both threads is modelled here over plain integers: script time is kept
//! in microseconds, device positions in frames, and audio samples as
//! fixed-point signed integers.  The actual synthesis backend and the audio
//! device live outside this crate and exchange plain values with it.

pub mod cache;
pub mod engine;
pub mod mixer;
pub mod note;
pub mod script;
pub mod sequence;
pub mod synth;
pub mod units;
