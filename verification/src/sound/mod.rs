//! Notification sounds.

pub mod synth;
