//! Conversion of rhythm-game charts between osu!mania, StepMania and Quaver.
//!
//! Time is kept in integer milliseconds, tempo in thousandths of a beat per
//! minute, and musical position in ticks of 1/960 of a beat.
pub mod chart;
pub mod charts;
pub mod common;
pub mod errors;
pub mod helpers;
pub mod hitobjects;
pub mod numbers;
pub mod osu;
pub mod quaver;
pub mod rhythm;
pub mod sound;
pub mod stepmania;
pub mod timeline;
pub mod timing_points;
pub mod writer;
