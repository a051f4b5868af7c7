//! The plugin kernel: scopes with an event bus, service injection and effects
//! that are undone when a scope is disposed. Everything else is a plugin.

pub mod context;
pub mod event;
pub mod laws;
pub mod loader;
pub mod plugin;
pub mod service;
pub mod use_laws;

pub use context::Context;
pub use event::Event;
pub use loader::{LoadError, LoadedPlugin, Loader, LoaderService, PluginStatus};
pub use plugin::Plugin;
pub use service::Service;
