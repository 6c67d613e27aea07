//! Core logic of a line-in audio bridge: it captures stereo PCM, conditions it
//! to 16-bit little-endian frames, mutes it by an amplitude-based voice
//! activity detector, and streams it to an ingest endpoint while a control
//! plane keeps the runtime configuration fresh.
//!
//! Everything here is plain-value logic: byte codecs for the wire bodies and
//! the identity file, the detector and its hysteresis, reconnect backoff, the
//! status register, and the per-chunk streaming decisions. Device capture,
//! sockets, and the float DSP kernels live outside the library and feed it
//! plain values.

pub mod audio;
pub mod backoff;
pub mod cli;
pub mod config;
pub mod discovery;
pub mod health;
pub mod install;
pub mod json;
pub mod models;
pub mod runtime;
pub mod stream;
pub mod text;

use vstd::prelude::*;

verus! {

} // verus!
