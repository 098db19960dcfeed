//! Rendering of command output.
pub mod text;
