//! A local-first clipboard history: captured text clips, their search,
//! pinning and retention rules, and the parser for the global shortcut.
pub mod clipboard;
pub mod commands;
pub mod config;
pub mod db;
pub mod instance;
pub mod pattern;
pub mod text;
