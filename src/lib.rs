//! Item resolution for a desktop picker: configuration documents, display and
//! source mode resolution, command output parsing and picture expansion.

pub mod text;
pub mod modes;
pub mod resolver;
pub mod item;
pub mod paths;
pub mod processor;
pub mod config;
pub mod pipeline;
pub mod filter;
pub mod loader;
pub mod state;
pub mod laws;
