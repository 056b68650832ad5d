//! The state that the panels read.

pub mod agent_view;
pub mod detail_panel;
pub mod state;
