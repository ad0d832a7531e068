//! Core of a real-time audio level meter.
//!
//! Blocks of interleaved 16-bit samples are reduced to one loudness
//! measurement per channel (`reducer`), a capture loop decides what each read
//! amounts to (`capture`), levels travel through bounded non-blocking
//! channels (`channel`), and a render loop keeps the levels last seen, turns
//! them into bars and decides when to stop (`level`, `render`).
//!
//! Reading the device, drawing, waiting for keys and the logarithm that turns
//! a measurement into decibels are left to the program around this library.

pub mod capture;
pub mod channel;
pub mod level;
pub mod reducer;
pub mod render;
