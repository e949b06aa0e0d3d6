//! Multi-instance script runtime manager: instance lifecycle, the event and
//! interval dispatch registry, raw pointer chains, and operator commands.

pub mod text;
pub mod registry;
pub mod vm;
pub mod manager;
pub mod memory;
pub mod command;
pub mod logger;
pub mod monster;
pub mod host;
