//! Template engine core: sources of template text, a registry of compiled
//! templates that is rebuilt all-or-nothing, and rendering against it.

pub mod directory;
pub mod engine;
pub mod memory;
pub mod naming;
pub mod registry;
pub mod source;
pub mod watch;

pub use directory::DirectorySource;
pub use engine::{EngineError, HandlebarsEngine, RenderError, Template, TemplateSource};
pub use memory::MemorySource;
pub use naming::template_name;
pub use source::{FileContent, FileEntry, Source, SourceError};
pub use watch::{next_action, WatchAction, WatchEvent};
