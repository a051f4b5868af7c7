//! What is on the screen.

pub mod app;
pub mod laws;
pub mod markdown;
pub mod markdown_laws;
pub mod style;
