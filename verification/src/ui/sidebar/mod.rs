//! The sidebar of spaces, tabs and agents.

pub mod agents;
pub mod attention;
pub mod boxes;
pub mod dash;
pub mod drawn;
pub mod entries;
pub mod layout;
pub mod render;
pub mod spaces;
pub mod spans;
pub mod tokens;
