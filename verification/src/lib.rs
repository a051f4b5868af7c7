//! localai: the plugin kernel, model layer and tool rules of a local assistant
//! shell.

pub mod config;
pub mod cordis;
pub mod events;
pub mod fs;
pub mod json;
pub mod laws;
pub mod llm;
pub mod plugins;
pub mod subprocess;
pub mod system;
pub mod text;
pub mod tui;
