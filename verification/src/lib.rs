//! Panels of a terminal workspace manager: the sidebar of spaces and tabs, the
//! detail panel of the focused tab, and the notification sounds.
//!
//! The functions here decide what is shown, where it stands and what a click
//! on it means. Drawing is a list of [`draw::DrawOp`] that the terminal front
//! end carries out.

pub mod app;
pub mod draw;
pub mod geometry;
pub mod metadata;
pub mod seconds;
pub mod seqs;
pub mod sound;
pub mod style;
pub mod text;
pub mod ui;
pub mod views;
pub mod workspace;
