//! Core of an embedded script-engine host: the resource handle table, the
//! operation registry, the module graph and its loader, the host event
//! bridge, and the bookkeeping a runtime keeps between dispatch turns.

pub mod bridge;
pub mod cmds;
pub mod error;
pub mod loader;
pub mod modules;
pub mod ops;
pub mod rejections;
pub mod paths;
pub mod resources;
pub mod runtime;
pub mod skynet;
