//! Mod resolution and directory reconciliation for a Minecraft server manager.

pub mod config;
pub mod disable;
pub mod identifier;
pub mod init;
pub mod markers;
pub mod overrides;
pub mod pool;
pub mod profile;
pub mod scripts;
pub mod server;
pub mod structs;
pub mod text;
pub mod upgrade;
