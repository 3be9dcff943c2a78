//! Core of a push-to-talk voice-capture pipeline.
//!
//! The crate models captured audio as interleaved fixed-point samples
//! (`i32`, with [`FULL_SCALE`] standing for an amplitude of 1.0) and
//! verifies the three parts of the pipeline that carry its logic:
//!
//! * [`capture`] — the capture worker's command-driven state machine and
//!   the recorder handle built on it;
//! * [`level`] — the loudness metric emitted while a subscribed session
//!   is recording;
//! * [`processor`] — downmixing and resampling into the mono, fixed-rate
//!   format the speech engine consumes.
//!
//! [`whisper`] holds the speech-model catalogue (file names, download
//! URLs, model paths). Everything tied to hardware or the operating
//! system — the audio host, threads, channels, the file system — lives
//! outside this crate and hands it plain values.
use vstd::prelude::*;

pub mod capture;
pub mod level;
pub mod processor;
pub mod whisper;

verus! {

/// Fixed-point amplitude scale: a sample value of `FULL_SCALE` stands for
/// a full-scale amplitude of 1.0.
pub const FULL_SCALE: i32 = 32768;

} // verus!
