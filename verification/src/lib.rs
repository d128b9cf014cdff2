//! A voice-activity-gated audio segmentation pipeline.
//!
//! Captured audio is pushed into a bounded transfer ring, resampled to
//! the rate a speech recognizer expects, and cut into utterances by an
//! amplitude-threshold segmenter.  The capture device and the recognizer
//! are external collaborators; everything between them is verified here.

pub mod downmix;
pub mod pipeline;
pub mod resample;
pub mod segment;
pub mod transfer;
