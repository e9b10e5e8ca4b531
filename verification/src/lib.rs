//! A live MIDI looper: what it does with every message of the controller and every tick of its
//! clock, how it reads its settings, what it shows and what it exports.
pub mod clock;
pub mod config;
pub mod display;
pub mod domain;
pub mod export;
pub mod laws;
pub mod midi;
pub mod output;
pub mod period;
pub mod ports;
pub mod readiness;
pub mod recording;
pub mod scene;
pub mod session;
pub mod sorting;
pub mod tables;
pub mod text;
