//! The panels.

pub mod detail_panel;
pub mod figures;
pub mod packing;
pub mod sidebar;
pub mod status;
pub mod viewer;
pub mod wrap;
