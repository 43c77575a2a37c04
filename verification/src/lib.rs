//! Adaptive terminal image layout and an interactive review session.
//!
//! The layout engine fits a batch of images into a terminal's pixel and
//! character grid without overflow or double scaling; the review session is
//! a state machine that walks a user through one keep/bin decision per image.

pub mod cli;
pub mod commands;
pub mod geometry;
pub mod layout;
pub mod paths;
pub mod render;
pub mod report;
pub mod session;

pub use geometry::TerminalGeometry;
